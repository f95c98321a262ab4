use sobre::clave::{clave_de_bytes, largo_de_cabecera, largo_de_lectura_de_cabecera, leer_clave};
use sobre::error::{Error, SALIDA_ERROR};

/// Reads the passphrase from the start of `entrada` and returns it with what
/// is left of the stream for the content.
fn leer(entrada: &[u8], utf16le: bool, enmarcada: bool) -> Result<(String, Vec<u8>), Error> {
    let (clave, usados) = leer_clave(entrada, utf16le, enmarcada)?;
    Ok((clave, entrada[usados..].to_vec()))
}

fn mensaje_de_falla(entrada: &[u8], utf16le: bool, enmarcada: bool) -> String {
    match leer(entrada, utf16le, enmarcada) {
        Ok((clave, _)) => panic!("se esperaba un error y llego la clave {clave:?}"),
        Err(e) => e.mensaje(),
    }
}

// --- el marco --------------------------------------------------------

#[test]
fn marco_separa_clave_y_contenido() {
    let (clave, resto) = leer(b"5\nabcdeel contenido", false, true).unwrap();
    assert_eq!(clave, "abcde");
    assert_eq!(resto, b"el contenido");
}

#[test]
fn marco_deja_el_contenido_intacto_aunque_empiece_con_salto() {
    let (clave, resto) = leer(b"3\nabc\n\nhola", false, true).unwrap();
    assert_eq!(clave, "abc");
    assert_eq!(resto, b"\n\nhola");
}

#[test]
fn marco_respeta_el_largo_exacto_sin_recortar_saltos() {
    let (clave, resto) = leer(b"3\nab\ncontenido", false, true).unwrap();
    assert_eq!(clave, "ab\n");
    assert_eq!(resto, b"contenido");
}

#[test]
fn sin_marco_si_recorta_los_saltos_del_pipe() {
    let (clave, _) = leer(b"abcde\r\n", false, false).unwrap();
    assert_eq!(clave, "abcde");
}

#[test]
fn marco_con_clave_que_contiene_0x0a_no_se_parte() {
    let bytes = [0x0Au8, 0x0A, 0x41, 0x00];
    let mut entrada = b"4\n".to_vec();
    entrada.extend_from_slice(&bytes);
    entrada.extend_from_slice(b"payload");

    let (clave, resto) = leer(&entrada, true, true).unwrap();
    assert_eq!(clave, "\u{0a0a}A");
    assert_eq!(resto, b"payload");
}

#[test]
fn los_dos_caminos_derivan_la_misma_clave() {
    let clave = "contraseña ñandú 480";
    let utf16: Vec<u8> = clave.encode_utf16().flat_map(|u| u.to_le_bytes()).collect();

    let mut a = format!("{}\n", clave.len()).into_bytes();
    a.extend_from_slice(clave.as_bytes());
    let mut b = format!("{}\n", utf16.len()).into_bytes();
    b.extend_from_slice(&utf16);

    assert_eq!(
        leer(&a, false, true).unwrap().0,
        leer(&b, true, true).unwrap().0
    );
}

#[test]
fn cabecera_sin_salto_falla() {
    let e = leer(b"12345678901234567890123456", false, true).unwrap_err();
    assert_eq!(e.codigo(), SALIDA_ERROR);
    assert!(e.mensaje().contains("salto"));
}

#[test]
fn cabecera_no_numerica_falla() {
    assert!(leer(b"hola\nabc", false, true).is_err());
}

#[test]
fn cabecera_de_cero_falla() {
    assert!(leer(b"0\ncontenido", false, true).is_err());
}

#[test]
fn cabecera_mas_grande_que_el_tope_falla_sin_reservar() {
    let e = leer(b"4000000000\nx", false, true).unwrap_err();
    assert!(e.mensaje().contains("tope"));
}

#[test]
fn clave_truncada_falla() {
    let e = leer(b"100\nsolo unos pocos", false, true).unwrap_err();
    assert!(e.mensaje().contains("se corto"));
}

#[test]
fn utf16le_impar_falla() {
    assert!(leer(b"3\nabc", true, true).is_err());
}

// --- the exact messages and lengths ------------------------------------

#[test]
fn cada_falla_del_marco_tiene_su_mensaje() {
    assert_eq!(
        mensaje_de_falla(b"12345678901234567890123456", false, true),
        "--stdin espera el largo de la clave en bytes y un salto de linea antes de la clave. \
         No encontre el salto en los primeros 20 bytes."
    );
    assert_eq!(
        mensaje_de_falla(b"hola\nabc", false, true),
        "la cabecera de --stdin dice \"hola\", que no es un largo en bytes"
    );
    assert_eq!(
        mensaje_de_falla(b"\xff\nabc", false, true),
        "la cabecera de --stdin no es texto ASCII"
    );
    assert_eq!(
        mensaje_de_falla(b"0\ncontenido", false, true),
        "la cabecera de --stdin declara una clave de cero bytes"
    );
    assert_eq!(
        mensaje_de_falla(b"4000000000\nx", false, true),
        "la cabecera de --stdin declara 4000000000 bytes de clave y el tope es 65536"
    );
    assert_eq!(
        mensaje_de_falla(b"100\nsolo unos pocos", false, true),
        "--stdin prometio 100 bytes de clave y el stream se corto antes: failed to fill whole buffer"
    );
    assert_eq!(
        mensaje_de_falla(b"3\nabc", true, true),
        "la clave en UTF-16LE tiene un numero impar de bytes"
    );
}

#[test]
fn los_largos_raros_se_rechazan() {
    assert_eq!(
        mensaje_de_falla(b"99999999999999999999\n", false, true),
        "--stdin espera el largo de la clave en bytes y un salto de linea antes de la clave. \
         No encontre el salto en los primeros 20 bytes."
    );
    assert_eq!(
        mensaje_de_falla(b"9999999999999999999\nx", false, true),
        "la cabecera de --stdin declara 9999999999999999999 bytes de clave y el tope es 65536"
    );
    assert_eq!(
        mensaje_de_falla(b"-5\nabcde", false, true),
        "la cabecera de --stdin dice \"-5\", que no es un largo en bytes"
    );
}

#[test]
fn la_cabecera_se_lee_hasta_el_salto_y_nunca_pasa_de_veinte_bytes() {
    assert_eq!(largo_de_lectura_de_cabecera(b"5\nabcde"), 2);
    assert_eq!(largo_de_lectura_de_cabecera(b"123"), 3);
    assert_eq!(largo_de_lectura_de_cabecera(&[b'7'; 30]), 20);
    assert_eq!(largo_de_cabecera(b"12\n").unwrap(), 12);
    assert_eq!(largo_de_cabecera(b"+12\n").unwrap(), 12);
    assert!(largo_de_cabecera(b"12").is_err());
    assert!(largo_de_cabecera(b"65537\n").is_err());
    assert_eq!(largo_de_cabecera(b"65536\n").unwrap(), 65536);
}

#[test]
fn sin_marco_los_saltos_del_final_se_van_y_los_de_adentro_se_quedan() {
    let (clave, resto) = leer(b"ab\ncd\n\r\n", false, false).unwrap();
    assert_eq!(clave, "ab\ncd");
    assert!(resto.is_empty());
}

#[test]
fn sin_marco_una_clave_de_puros_saltos_no_es_clave() {
    assert_eq!(
        mensaje_de_falla(b"\n\r\n", false, false),
        "no llego ninguna clave por stdin"
    );
    assert_eq!(mensaje_de_falla(b"", false, false), "no llego ninguna clave por stdin");
}

#[test]
fn una_clave_que_no_es_texto_se_rechaza_sin_mostrarla() {
    assert_eq!(
        clave_de_bytes(b"\xff\xfe", false, false).unwrap_err().mensaje(),
        "la clave no es UTF-8 valido"
    );
    // A lone surrogate (0xD800) is not UTF-16.
    assert_eq!(
        clave_de_bytes(&[0x00, 0xD8], true, true).unwrap_err().mensaje(),
        "la clave no es UTF-16LE valido"
    );
}

#[test]
fn utf16le_con_par_sustituto_da_el_caracter_entero() {
    // U+1F600 in UTF-16LE: D83D DE00.
    let clave = clave_de_bytes(&[0x3D, 0xD8, 0x00, 0xDE], true, true).unwrap();
    assert_eq!(clave, "\u{1F600}");
}
