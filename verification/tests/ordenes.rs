use sobre::argumentos::{
    clave_enmarcada, comprobar_destino, forma, informe, parsear, usa_clave, validar, Accion,
    Opciones, Orden,
};

fn args(a: &[&str]) -> Vec<String> {
    a.iter().map(|s| s.to_string()).collect()
}

fn falla(a: &[&str]) -> String {
    match parsear(&args(a)) {
        Ok(_) => panic!("se esperaba un error para {a:?}"),
        Err(e) => e.mensaje(),
    }
}

fn ejecuta(a: &[&str]) -> (Orden, Opciones) {
    match parsear(&args(a)) {
        Ok(Accion::Ejecutar(o, op)) => (o, op),
        Ok(_) => panic!("se esperaba una orden para {a:?}"),
        Err(e) => panic!("{a:?}: {}", e.mensaje()),
    }
}

fn vacias() -> Opciones {
    Opciones {
        entrada: None,
        salida: None,
        utf16le: false,
        forzar: false,
        para: vec![],
        identidad: None,
        trabajo: None,
        max_trabajo: None,
        bloque: None,
        desrellenar: false,
    }
}

#[test]
fn las_ordenes_se_conocen_por_su_nombre() {
    assert_eq!(Orden::desde("cifrar"), Some(Orden::Cifrar));
    assert_eq!(Orden::desde("abrir"), Some(Orden::Abrir));
    assert_eq!(Orden::desde("generar"), Some(Orden::Generar));
    assert_eq!(Orden::desde("rellenar"), Some(Orden::Rellenar));
    assert_eq!(Orden::desde("desrellenar"), Some(Orden::Desrellenar));
    assert_eq!(Orden::desde("Cifrar"), None);
    assert_eq!(Orden::desde(""), None);
    assert!(!Orden::Generar.lee_entrada());
    assert!(Orden::Rellenar.lee_entrada());
    assert!(Orden::Cifrar.tiene_llave() && Orden::Abrir.tiene_llave());
    assert!(!Orden::Desrellenar.tiene_llave());
}

#[test]
fn sin_nada_o_con_help_es_la_ayuda_y_version_es_la_version() {
    assert!(matches!(parsear(&args(&[])), Ok(Accion::Ayuda)));
    assert!(matches!(parsear(&args(&["--forzar"])), Ok(Accion::Ayuda)));
    assert!(matches!(parsear(&args(&["cifrar", "-h"])), Ok(Accion::Ayuda)));
    assert!(matches!(parsear(&args(&["--help", "-pclave"])), Ok(Accion::Ayuda)));
    assert!(matches!(parsear(&args(&["-V"])), Ok(Accion::Version)));
    assert!(matches!(parsear(&args(&["abrir", "--version"])), Ok(Accion::Version)));
}

#[test]
fn una_orden_completa_llena_las_opciones() {
    let (orden, o) = ejecuta(&["cifrar", "--bloque=4K", "--trabajo", "18", "a.txt", "a.sobre"]);
    assert_eq!(orden, Orden::Cifrar);
    assert_eq!(o.entrada.as_deref(), Some("a.txt"));
    assert_eq!(o.salida.as_deref(), Some("a.sobre"));
    assert_eq!(o.bloque, Some(4096));
    assert_eq!(o.trabajo, Some(18));
    assert!(usa_clave(orden, &o));
    assert!(!clave_enmarcada(&o));

    let (orden, o) = ejecuta(&["abrir", "--stdin", "--stdout", "--max-trabajo=20", "--desrellenar"]);
    assert_eq!(orden, Orden::Abrir);
    assert_eq!(o.entrada, None);
    assert_eq!(o.salida, None);
    assert_eq!(o.max_trabajo, Some(20));
    assert!(o.desrellenar);
    assert!(usa_clave(orden, &o));
    assert!(clave_enmarcada(&o));

    let (orden, o) = ejecuta(&["cifrar", "--para", "age1x", "--para=age1y", "--stdin", "s"]);
    assert_eq!(o.para, vec!["age1x".to_string(), "age1y".to_string()]);
    assert!(!usa_clave(orden, &o));

    let (orden, o) = ejecuta(&["generar", "--stdout"]);
    assert_eq!(orden, Orden::Generar);
    assert!(!usa_clave(orden, &o));

    let (_, o) = ejecuta(&["abrir", "--identidad", "mi.id", "--utf16le", "e", "s"]);
    assert_eq!(o.identidad.as_deref(), Some("mi.id"));
    assert!(o.utf16le);
}

#[test]
fn la_clave_nunca_va_por_argumento() {
    let m = "la clave no se pasa por argumento, nunca. Mandala por stdin: los argumentos de un \
             proceso los puede leer cualquier otro proceso. (Un destinatario x25519 si va por \
             argumento: es publico. Ver --para.)";
    assert_eq!(falla(&["cifrar", "-pclave", "a", "b"]), m);
    assert_eq!(falla(&["cifrar", "a", "b", "--password=hunter2"]), m);
    assert_eq!(falla(&["--clave", "x", "abrir", "a", "b"]), m);
    assert_eq!(falla(&["-p"]), m);
    // As the value of a flag that takes one, it is that value and nothing else.
    let (_, o) = ejecuta(&["abrir", "--identidad", "-pid", "e", "s"]);
    assert_eq!(o.identidad.as_deref(), Some("-pid"));
}

#[test]
fn lo_que_no_se_entiende_se_dice() {
    assert_eq!(falla(&["--nada"]), "no conozco la opcion \"--nada\"");
    assert_eq!(falla(&["-x=1"]), "no conozco la opcion \"-x=1\"");
    assert_eq!(falla(&["--nada=1"]), "no conozco la opcion \"--nada\"");
    assert_eq!(falla(&["cerrar", "a", "b"]), "no conozco la orden \"cerrar\". Probá con --help");
    assert_eq!(falla(&["cifrar", "--para"]), "a \"--para\" le falta el valor");
    assert_eq!(
        falla(&["cifrar", "--bloque", "banana", "a", "b"]),
        "no entiendo el tamano \"banana\". Probá 4096, 4K, 1M."
    );
    assert_eq!(
        falla(&["cifrar", "--trabajo=99", "a", "b"]),
        "el factor de trabajo va de 1 a 63, y pediste 99"
    );
}

#[test]
fn la_cantidad_de_posicionales_depende_de_los_flujos() {
    assert_eq!(
        falla(&["cifrar", "a"]),
        "esperaba: sobre <orden> <entrada> <salida>. Me pasaste 2 cosa(s) y no 3."
    );
    assert_eq!(
        falla(&["cifrar", "--stdin", "a", "b"]),
        "esperaba: sobre <orden> <salida>. Me pasaste 3 cosa(s) y no 2."
    );
    assert_eq!(
        falla(&["abrir", "--stdin", "--stdout", "x"]),
        "esperaba: sobre <orden>. Me pasaste 2 cosa(s) y no 1."
    );
    assert_eq!(
        falla(&["generar", "a", "b"]),
        "esperaba: sobre <orden> <salida>. Me pasaste 3 cosa(s) y no 2."
    );
    assert_eq!(forma(Orden::Abrir, false, true), "sobre <orden> <entrada>");
    assert_eq!(forma(Orden::Generar, false, false), "sobre <orden> <salida>");
}

#[test]
fn las_combinaciones_sin_sentido_se_rechazan() {
    let casos: [(&[&str], &str); 12] = [
        (
            &["cifrar", "--para", "k", "--identidad", "i", "a", "b"],
            "--para cierra y --identidad abre. No van juntos.",
        ),
        (
            &["abrir", "--para", "k", "a", "b"],
            "--para es de cifrar: dice a nombre de quien se cierra el sobre.",
        ),
        (
            &["cifrar", "--identidad", "i", "a", "b"],
            "--identidad es de abrir: dice con que se abre el sobre.",
        ),
        (&["abrir", "--trabajo", "3", "a", "b"], "--trabajo es de cifrar."),
        (
            &["cifrar", "--para", "k", "--trabajo", "3", "a", "b"],
            "--trabajo es el costo de scrypt, y --para no usa scrypt.",
        ),
        (&["cifrar", "--max-trabajo", "3", "a", "b"], "--max-trabajo es de abrir."),
        (
            &["abrir", "--identidad", "i", "--max-trabajo", "3", "a", "b"],
            "--max-trabajo es el tope de scrypt, y --identidad no usa scrypt.",
        ),
        (
            &["rellenar", "a", "b"],
            "rellenar necesita --bloque <tamano>. Sin el no sabe hasta donde.",
        ),
        (
            &["abrir", "--bloque", "4K", "a", "b"],
            "--bloque acolcha antes de cerrar: va en cifrar o en rellenar.",
        ),
        (
            &["desrellenar", "--desrellenar", "a", "b"],
            "--desrellenar es de abrir. Suelto, la orden es `sobre desrellenar`.",
        ),
        (
            &["rellenar", "--bloque", "16", "--utf16le", "a", "b"],
            "--utf16le habla de la clave, y esa orden no usa clave.",
        ),
        (
            &["generar", "--stdin", "b"],
            "generar no lee nada: --stdin no tiene sentido ahi.",
        ),
    ];
    for (a, m) in casos.iter() {
        assert_eq!(falla(a), *m, "{a:?}");
    }
    let mut o = vacias();
    o.salida = Some("b".to_string());
    assert_eq!(
        validar(Orden::Generar, &o, true).unwrap_err().mensaje(),
        "generar no lee nada: --stdin no tiene sentido ahi."
    );
    assert!(validar(Orden::Generar, &o, false).is_ok());
}

#[test]
fn una_salida_que_existe_solo_se_pisa_con_forzar() {
    assert_eq!(
        comprobar_destino("a.sobre", true, false).unwrap_err().mensaje(),
        "a.sobre ya existe. Usa --forzar si de verdad lo querés pisar."
    );
    assert!(comprobar_destino("a.sobre", true, true).is_ok());
    assert!(comprobar_destino("a.sobre", false, false).is_ok());
}

#[test]
fn el_informe_cuenta_como_salio() {
    assert_eq!(informe("cerrado", Some("a.sobre"), 1234, 99), "cerrado: a.sobre (1234 bytes)");
    assert_eq!(
        informe("abierto", None, 0, 4096),
        "abierto: 4096 bytes de contenido -> stdout"
    );
}

#[test]
fn la_entrada_se_nombra_por_su_ruta_o_como_entrada_estandar() {
    let mut o = vacias();
    assert_eq!(o.nombre_entrada(), "la entrada estandar");
    o.entrada = Some("notas.sobre".to_string());
    assert_eq!(o.nombre_entrada(), "notas.sobre");
}

#[test]
fn el_valor_pegado_y_el_suelto_se_leen_igual() {
    let pares: [(&[&str], &[&str]); 4] = [
        (&["cifrar", "--bloque", "4K", "a", "b"], &["cifrar", "--bloque=4K", "a", "b"]),
        (&["abrir", "--identidad", "x=y", "a", "b"], &["abrir", "--identidad=x=y", "a", "b"]),
        (&["cifrar", "--trabajo", "99", "a", "b"], &["cifrar", "--trabajo=99", "a", "b"]),
        (&["cifrar", "--para", "k", "--stdin", "s"], &["cifrar", "--para=k", "--stdin", "s"]),
    ];
    for (suelto, pegado) in pares {
        match (parsear(&args(suelto)), parsear(&args(pegado))) {
            (Ok(Accion::Ejecutar(o1, a)), Ok(Accion::Ejecutar(o2, b))) => {
                assert_eq!(o1, o2);
                assert_eq!(a.entrada, b.entrada);
                assert_eq!(a.salida, b.salida);
                assert_eq!(a.para, b.para);
                assert_eq!(a.identidad, b.identidad);
                assert_eq!(a.trabajo, b.trabajo);
                assert_eq!(a.bloque, b.bloque);
            }
            (Err(e1), Err(e2)) => assert_eq!(e1.mensaje(), e2.mensaje()),
            _ => panic!("{suelto:?} y {pegado:?} se leen distinto"),
        }
    }
    // An argument with `=` that does not start with `--` is a positional.
    let (_, o) = ejecuta(&["cifrar", "a=b", "c"]);
    assert_eq!(o.entrada.as_deref(), Some("a=b"));
}

#[test]
fn un_flag_que_espera_valor_se_come_al_siguiente_pegado_o_no() {
    // Right after `--para`, the next argument is its value, whole.
    let (_, a) = ejecuta(&["cifrar", "--para", "--bloque=4K", "--stdin", "s"]);
    assert_eq!(a.para, vec!["--bloque=4K".to_string()]);
    assert_eq!(a.bloque, None);
    let (_, b) = ejecuta(&["cifrar", "--para", "--bloque", "4K", "--stdin"]);
    assert_eq!(b.para, vec!["--bloque".to_string()]);
    assert_eq!(b.salida.as_deref(), Some("4K"));
}
