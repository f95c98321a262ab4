use sobre::error::{
    clasificar, clasificar_copia, Causa, ClaseIo, Error, FalloAge, SALIDA_CLAVE, SALIDA_ERROR,
    SALIDA_NO_ES_SOBRE, SALIDA_OK, SALIDA_TRABAJO,
};

/// What `age` says of one of its failures.
fn texto_de(e: age::DecryptError) -> String {
    e.to_string()
}

#[test]
fn los_codigos_de_salida_no_se_pisan() {
    assert_eq!(Error::from("x".to_string()).codigo(), SALIDA_ERROR);
    assert_eq!(
        Error::ClaveIncorrecta {
            origen: "x".into(),
            causa: Causa::Age(FalloAge::DecryptionFailed),
        }
        .codigo(),
        SALIDA_CLAVE
    );
    assert_eq!(
        Error::NoEsSobre {
            origen: "x".into(),
            causa: Causa::Age(FalloAge::InvalidHeader),
        }
        .codigo(),
        SALIDA_NO_ES_SOBRE
    );
    assert_eq!(
        Error::TrabajoExcesivo {
            origen: "x".into(),
            pide: 22,
            acepta: 18
        }
        .codigo(),
        SALIDA_TRABAJO
    );
}

#[test]
fn clave_incorrecta_se_distingue_de_sobre_invalido() {
    let d = texto_de(age::DecryptError::DecryptionFailed);
    assert_eq!(
        clasificar(FalloAge::DecryptionFailed, &d, "x").codigo(),
        SALIDA_CLAVE
    );
    let d = texto_de(age::DecryptError::NoMatchingKeys);
    assert_eq!(
        clasificar(FalloAge::NoMatchingKeys, &d, "x").codigo(),
        SALIDA_NO_ES_SOBRE
    );
    let d = texto_de(age::DecryptError::InvalidMac);
    assert_eq!(
        clasificar(FalloAge::InvalidMac, &d, "x").codigo(),
        SALIDA_NO_ES_SOBRE
    );
    let d = texto_de(age::DecryptError::UnknownFormat);
    assert_eq!(
        clasificar(FalloAge::UnknownFormat, &d, "x").codigo(),
        SALIDA_NO_ES_SOBRE
    );
}

#[test]
fn trabajo_excesivo_tiene_su_propio_codigo_y_dice_los_numeros() {
    let d = texto_de(age::DecryptError::ExcessiveWork {
        required: 22,
        target: 18,
    });
    let e = clasificar(
        FalloAge::ExcessiveWork {
            required: 22,
            target: 18,
        },
        &d,
        "notas.sobre",
    );
    assert_eq!(e.codigo(), SALIDA_TRABAJO);
    let m = e.mensaje();
    assert!(m.contains("22"), "{m}");
    assert!(m.contains("18"), "{m}");
    assert!(m.contains("16x"), "{m}");
}

#[test]
fn un_sobre_truncado_es_sobre_invalido_y_no_error_de_disco() {
    let corte = std::io::Error::new(std::io::ErrorKind::UnexpectedEof, "corte");
    let d = texto_de(age::DecryptError::Io(corte));
    assert_eq!(
        clasificar(FalloAge::Io(ClaseIo::UnexpectedEof), &d, "x").codigo(),
        SALIDA_NO_ES_SOBRE
    );

    let disco = std::io::Error::new(std::io::ErrorKind::PermissionDenied, "permisos");
    let d = texto_de(age::DecryptError::Io(disco));
    assert_eq!(
        clasificar(FalloAge::Io(ClaseIo::Otra), &d, "x").codigo(),
        SALIDA_ERROR
    );

    let mac = std::io::Error::new(std::io::ErrorKind::InvalidData, "mac");
    assert_eq!(
        clasificar_copia(ClaseIo::InvalidData, &mac.to_string(), "x").codigo(),
        SALIDA_NO_ES_SOBRE
    );
}

#[test]
fn el_mensaje_no_repite_la_causa() {
    let e = Error::from("no pude abrir notas.txt".to_string());
    assert_eq!(e.mensaje(), "no pude abrir notas.txt");
    assert!(e.causa().is_none());
}

// --- more of the same, exactly ------------------------------------------

#[test]
fn ningun_error_sale_con_el_codigo_del_exito() {
    let errores = [
        Error::otro("x"),
        Error::ClaveIncorrecta {
            origen: "a".into(),
            causa: Causa::Age(FalloAge::DecryptionFailed),
        },
        Error::NoEsSobre {
            origen: "a".into(),
            causa: Causa::Io(ClaseIo::InvalidData),
        },
        Error::TrabajoExcesivo {
            origen: "a".into(),
            pide: 1,
            acepta: 1,
        },
    ];
    let codigos: Vec<u8> = errores.iter().map(|e| e.codigo()).collect();
    assert_eq!(codigos, vec![1, 2, 3, 4]);
    assert!(codigos.iter().all(|c| *c != SALIDA_OK));
}

#[test]
fn cada_error_dice_lo_suyo() {
    let e = clasificar(FalloAge::DecryptionFailed, "descripcion", "notas.sobre");
    assert_eq!(e.mensaje(), "la clave no abre notas.sobre");
    assert_eq!(e.causa(), Some(Causa::Age(FalloAge::DecryptionFailed)));

    let e = clasificar(FalloAge::InvalidHeader, "descripcion", "notas.sobre");
    assert_eq!(e.mensaje(), "notas.sobre no es un sobre que se pueda abrir asi");
    assert_eq!(e.causa(), Some(Causa::Age(FalloAge::InvalidHeader)));

    let e = clasificar(
        FalloAge::ExcessiveWork {
            required: 22,
            target: 18,
        },
        "descripcion",
        "notas.sobre",
    );
    assert_eq!(
        e.mensaje(),
        "notas.sobre fue cerrado con un factor de trabajo de 22 y esta maquina acepta hasta 18. \
         Usá --max-trabajo 22 si estás dispuesto a esperar 16x lo que tarda normalmente."
    );
    assert!(e.causa().is_none());
}

#[test]
fn un_factor_menor_al_que_se_acepta_no_multiplica_nada() {
    let e = Error::TrabajoExcesivo {
        origen: "s".into(),
        pide: 10,
        acepta: 18,
    };
    assert!(e.mensaje().ends_with("esperar 1x lo que tarda normalmente."));
    let e = Error::TrabajoExcesivo {
        origen: "s".into(),
        pide: 63,
        acepta: 1,
    };
    assert!(e.mensaje().contains(" 4611686018427387904x "));
}

#[test]
fn un_error_de_disco_guarda_lo_que_dijo_el_disco() {
    let disco = std::io::Error::new(std::io::ErrorKind::PermissionDenied, "permisos");
    let d = texto_de(age::DecryptError::Io(disco));
    let e = clasificar(FalloAge::Io(ClaseIo::Otra), &d, "x");
    assert_eq!(e.mensaje(), d);
    assert!(e.causa().is_none());

    let e = clasificar(FalloAge::Io(ClaseIo::InvalidData), "roto", "x");
    assert_eq!(e.mensaje(), "roto");
}

#[test]
fn ninguna_identidad_reconocida_no_es_clave_incorrecta() {
    for fallo in [
        FalloAge::NoMatchingKeys,
        FalloAge::KeyDecryptionFailed,
        FalloAge::InvalidHeader,
        FalloAge::InvalidMac,
        FalloAge::UnknownFormat,
        FalloAge::Io(ClaseIo::UnexpectedEof),
    ] {
        let e = clasificar(fallo, "d", "sobre.age");
        assert_eq!(e.codigo(), SALIDA_NO_ES_SOBRE, "{fallo:?}");
        assert_eq!(e.causa(), Some(Causa::Age(fallo)));
    }
}

#[test]
fn copiar_un_sobre_cortado_es_sobre_invalido() {
    let e = clasificar_copia(ClaseIo::UnexpectedEof, "corte", "s");
    assert_eq!(e.codigo(), SALIDA_NO_ES_SOBRE);
    assert_eq!(e.causa(), Some(Causa::Io(ClaseIo::UnexpectedEof)));
    let e = clasificar_copia(ClaseIo::Otra, "disco lleno", "s");
    assert_eq!(e.codigo(), SALIDA_ERROR);
    assert_eq!(e.mensaje(), "disco lleno");
}
