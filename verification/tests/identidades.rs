use std::io::{Read, Write};
use std::str::FromStr;

use age::secrecy::ExposeSecret;

use sobre::argumentos::Opciones;
use sobre::error::{clasificar, ClaseIo, Error, FalloAge, SALIDA_CLAVE, SALIDA_TRABAJO};
use sobre::llaves::{
    Cifrador, generar_identidad, identidad_de_texto, intentar_cifrador, leer_destinatarios,
    llave_de_clave, preparar_cifrador,
    texto_de_identidad,
};

fn opciones_de_cifrar(para: Vec<String>, trabajo: Option<u8>) -> Opciones {
    Opciones {
        entrada: Some("notas.txt".to_string()),
        salida: Some("notas.sobre".to_string()),
        utf16le: false,
        forzar: false,
        para,
        identidad: None,
        trabajo,
        max_trabajo: None,
        bloque: None,
        desrellenar: false,
    }
}

fn cerrar(cifrador: Cifrador, contenido: &[u8]) -> Vec<u8> {
    let mut flujo = cifrador.cifrador.wrap_output(Vec::new()).unwrap();
    flujo.write_all(contenido).unwrap();
    flujo.finish().unwrap()
}

fn abrir(sobre: &[u8], identidad: &dyn age::Identity) -> Result<Vec<u8>, age::DecryptError> {
    let descifrador = age::Decryptor::new(sobre)?;
    let mut flujo = descifrador.decrypt(std::iter::once(identidad))?;
    let mut salida = Vec::new();
    flujo.read_to_end(&mut salida).unwrap();
    Ok(salida)
}

/// The plain value of an `age` failure, as the tool reads it.
fn fallo_de(e: &age::DecryptError) -> FalloAge {
    match e {
        age::DecryptError::DecryptionFailed => FalloAge::DecryptionFailed,
        age::DecryptError::ExcessiveWork { required, target } => FalloAge::ExcessiveWork {
            required: *required,
            target: *target,
        },
        age::DecryptError::InvalidHeader => FalloAge::InvalidHeader,
        age::DecryptError::InvalidMac => FalloAge::InvalidMac,
        age::DecryptError::Io(_) => FalloAge::Io(ClaseIo::Otra),
        age::DecryptError::KeyDecryptionFailed => FalloAge::KeyDecryptionFailed,
        age::DecryptError::NoMatchingKeys => FalloAge::NoMatchingKeys,
        age::DecryptError::UnknownFormat => FalloAge::UnknownFormat,
        _ => FalloAge::UnknownFormat,
    }
}

fn mensaje(r: Result<impl Sized, Error>) -> String {
    match r {
        Ok(_) => panic!("se esperaba un error"),
        Err(e) => e.mensaje(),
    }
}

#[test]
fn una_identidad_generada_va_y_vuelve_de_texto() {
    let id = age::x25519::Identity::generate();
    let publica = id.to_public().to_string();
    let privada = id.to_string().expose_secret().to_string();

    assert!(publica.starts_with("age1"), "{publica}");
    assert!(privada.starts_with("AGE-SECRET-KEY-1"), "publica: {publica}");

    assert!(age::x25519::Recipient::from_str(&publica).is_ok());
    assert!(age::x25519::Identity::from_str(&privada).is_ok());

    assert_eq!(leer_destinatarios(&[publica.clone()]).unwrap().len(), 1);
    let leida = identidad_de_texto(&privada, "mi.identidad").unwrap();
    assert_eq!(leida.identidad.to_public().to_string(), publica);
}

#[test]
fn los_destinatarios_mal_escritos_se_rechazan_temprano() {
    assert!(leer_destinatarios(&["no-es-una-clave".to_string()]).is_err());
    let id = age::x25519::Identity::generate();
    let privada = id.to_string().expose_secret().to_string();
    assert!(leer_destinatarios(&[privada]).is_err());
}

// --- more ----------------------------------------------------------------

#[test]
fn los_destinatarios_se_recortan_y_el_primero_mal_escrito_se_nombra() {
    let a = age::x25519::Identity::generate().to_public().to_string();
    let b = age::x25519::Identity::generate().to_public().to_string();
    let leidos = leer_destinatarios(&[format!("  {a}\n"), b.clone()]).unwrap();
    assert_eq!(leidos.len(), 2);
    assert_eq!(leidos[0].llave.to_string(), a);
    assert_eq!(leidos[1].llave.to_string(), b);

    let m = mensaje(leer_destinatarios(&[a, " age1nada ".to_string(), "otra".to_string()]));
    assert!(
        m.starts_with("\" age1nada \" no es una clave publica age valida: "),
        "{m}"
    );
    assert!(leer_destinatarios(&[]).unwrap().is_empty());
}

#[test]
fn la_identidad_es_la_primera_linea_que_no_es_comentario() {
    let id = age::x25519::Identity::generate();
    let publica = id.to_public().to_string();
    let privada = id.to_string().expose_secret().to_string();
    let archivo = format!("# creada: hoy\n# clave publica: {publica}\n\n   \n  {privada}  \r\n# fin\n");
    let leida = identidad_de_texto(&archivo, "mi.identidad").unwrap();
    assert_eq!(leida.identidad.to_public().to_string(), publica);
}

#[test]
fn un_archivo_sin_identidad_o_con_una_rota_se_nombra() {
    assert_eq!(
        mensaje(identidad_de_texto("# solo comentarios\n\n", "vacia.txt")),
        "vacia.txt no tiene ninguna identidad adentro"
    );
    assert_eq!(
        mensaje(identidad_de_texto("", "vacia.txt")),
        "vacia.txt no tiene ninguna identidad adentro"
    );
    let m = mensaje(identidad_de_texto("# x\nAGE-SECRET-KEY-1ROTA\n", "rota.txt"));
    assert!(m.starts_with("rota.txt no tiene una identidad age valida: "), "{m}");
    assert!(!m.contains("ROTA"), "{m}");
}

#[test]
fn sin_destinatarios_ni_clave_no_hay_sobre() {
    assert!(preparar_cifrador(&opciones_de_cifrar(vec![], None), None).is_err());
    let m = mensaje(preparar_cifrador(
        &opciones_de_cifrar(vec!["nada".to_string()], None),
        None,
    ));
    assert!(m.starts_with("\"nada\" no es una clave publica age valida: "), "{m}");
}

#[test]
fn un_sobre_para_una_clave_publica_abre_con_su_identidad() {
    let id = age::x25519::Identity::generate();
    let publica = id.to_public().to_string();
    let privada = id.to_string().expose_secret().to_string();

    let cifrador = preparar_cifrador(&opciones_de_cifrar(vec![publica], None), None).unwrap();
    let sobre = cerrar(cifrador, b"el contenido");
    assert_ne!(sobre, b"el contenido".to_vec());

    let leida = identidad_de_texto(&privada, "mi.identidad").unwrap();
    assert_eq!(abrir(&sobre, &leida.identidad).unwrap(), b"el contenido".to_vec());

    // Another identity does not recognise the stanza: not an envelope for it.
    let otra = age::x25519::Identity::generate();
    let e = abrir(&sobre, &otra).unwrap_err();
    assert_eq!(fallo_de(&e), FalloAge::NoMatchingKeys);
}

#[test]
fn un_sobre_con_clave_abre_con_esa_clave_y_no_con_otra() {
    let cifrador = preparar_cifrador(
        &opciones_de_cifrar(vec![], Some(2)),
        Some("clave-secreta".to_string()),
    )
    .unwrap();
    let sobre = cerrar(cifrador, b"secreto");

    let llave = llave_de_clave("clave-secreta".to_string(), None);
    assert_eq!(abrir(&sobre, &llave.identidad).unwrap(), b"secreto".to_vec());

    let otra = llave_de_clave("otra".to_string(), None);
    let e = abrir(&sobre, &otra.identidad).unwrap_err();
    let error = clasificar(fallo_de(&e), &e.to_string(), "notas.sobre");
    assert_eq!(error.codigo(), SALIDA_CLAVE);
    assert_eq!(error.mensaje(), "la clave no abre notas.sobre");
}

#[test]
fn un_sobre_que_pide_mas_trabajo_del_aceptado_dice_cuanto() {
    let cifrador = preparar_cifrador(
        &opciones_de_cifrar(vec![], Some(12)),
        Some("clave".to_string()),
    )
    .unwrap();
    let sobre = cerrar(cifrador, b"x");

    let llave = llave_de_clave("clave".to_string(), Some(5));
    let e = abrir(&sobre, &llave.identidad).unwrap_err();
    let fallo = fallo_de(&e);
    assert!(matches!(fallo, FalloAge::ExcessiveWork { required: 12, .. }), "{fallo:?}");
    // `age`'s own text for this failure subtracts the factors and cannot be
    // asked for when the machine's target is above what was required.
    let error = clasificar(fallo, "", "s");
    assert_eq!(error.codigo(), SALIDA_TRABAJO);
    assert!(error.mensaje().contains("factor de trabajo de 12"));

    let generosa = llave_de_clave("clave".to_string(), Some(12));
    assert_eq!(abrir(&sobre, &generosa.identidad).unwrap(), b"x".to_vec());
}

#[test]
fn el_archivo_de_identidad_lleva_la_publica_comentada() {
    assert_eq!(
        texto_de_identidad("age1abc", "AGE-SECRET-KEY-1XYZ"),
        "# clave publica: age1abc\nAGE-SECRET-KEY-1XYZ\n"
    );
}

#[test]
fn lo_que_genera_generar_lo_lee_identidad() {
    let (publica, archivo) = generar_identidad();
    assert!(publica.starts_with("age1"), "{publica}");
    assert!(archivo.starts_with(&format!("# clave publica: {publica}\nAGE-SECRET-KEY-1")));
    assert!(archivo.ends_with('\n'));
    assert_eq!(leer_destinatarios(&[publica.clone()]).unwrap().len(), 1);
    let id = identidad_de_texto(&archivo, "mi.identidad").unwrap();
    assert_eq!(id.identidad.to_public().to_string(), publica);

    let (otra, _) = generar_identidad();
    assert_ne!(otra, publica);
}

#[test]
fn una_clave_publica_de_orden_bajo_no_llega_a_age() {
    // The all-zero point parses as a key, but its shared secret is all zeros:
    // closing an envelope to it panics in `age`, so it is never handed over.
    let cero = "age1qqqqqqqqqqqqqqqqqqqqqqqqqqqqqqqqqqqqqqqqqqqqqqqqqqqq5cu47z".to_string();
    let uno = "age1qyqqqqqqqqqqqqqqqqqqqqqqqqqqqqqqqqqqqqqqqqqqqqqqqqqqj7vrya".to_string();
    assert_eq!(leer_destinatarios(&[cero.clone()]).unwrap().len(), 1);
    let buena = age::x25519::Identity::generate().to_public().to_string();
    assert!(intentar_cifrador(
        &opciones_de_cifrar(vec![buena.clone(), format!(" {cero}")], None),
        None
    )
    .is_none());
    assert!(intentar_cifrador(&opciones_de_cifrar(vec![uno], None), None).is_none());
    // A key that is not a key is reported first, as before.
    let m = mensaje(
        intentar_cifrador(&opciones_de_cifrar(vec![cero, "nada".to_string()], None), None)
            .unwrap(),
    );
    assert!(m.starts_with("\"nada\" no es una clave publica age valida: "), "{m}");
    assert!(intentar_cifrador(&opciones_de_cifrar(vec![buena], None), None).unwrap().is_ok());
    assert!(intentar_cifrador(&opciones_de_cifrar(vec![], Some(2)), Some("k".to_string()))
        .unwrap()
        .is_ok());
}

#[test]
fn un_sobre_para_varias_claves_abre_con_cualquiera() {
    let a = age::x25519::Identity::generate();
    let b = age::x25519::Identity::generate();
    let para = vec![a.to_public().to_string(), b.to_public().to_string()];
    let cifrador = preparar_cifrador(&opciones_de_cifrar(para, None), None).unwrap();
    let sobre = cerrar(cifrador, b"para los dos");
    assert_eq!(abrir(&sobre, &a).unwrap(), b"para los dos".to_vec());
    assert_eq!(abrir(&sobre, &b).unwrap(), b"para los dos".to_vec());
}
