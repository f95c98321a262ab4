use sobre::error::{Error, SALIDA_ERROR};
use sobre::relleno::{
    acolchar, copiar_sin_relleno, desrellenar, Rellenador, BLOQUE_MAX, MARCA_RELLENO,
};

/// Pads `datos` the way a stream does: counting what goes through, then
/// appending the tail.
fn acolchar_en_flujo(datos: &[u8], bloque: u64) -> Vec<u8> {
    let mut r = Rellenador::nuevo(bloque);
    let mut salida = Vec::new();
    for trozo in datos.chunks(7) {
        salida.extend_from_slice(trozo);
        r.anotar(trozo.len() as u64);
    }
    salida.extend(r.finalizar());
    salida
}

fn desacolchar(datos: &[u8]) -> Result<Vec<u8>, Error> {
    let mut salida = Vec::new();
    copiar_sin_relleno(datos, &mut salida)?;
    Ok(salida)
}

/// Unpads `datos` read in chunks of `trozo` bytes, as a stream would be.
fn desacolchar_a_trozos(datos: &[u8], trozo: usize) -> Result<Vec<u8>, Error> {
    let mut retenido = Vec::new();
    let mut salida = Vec::new();
    for t in datos.chunks(trozo) {
        desrellenar(&mut retenido, t, &mut salida)?;
    }
    desrellenar(&mut retenido, &[], &mut salida)?;
    Ok(salida)
}

#[test]
fn acolchar_lleva_al_proximo_multiplo() {
    assert_eq!(acolchar_en_flujo(b"hola", 16).len(), 16);
    assert_eq!(acolchar_en_flujo(&[0u8; 15], 16).len(), 16);
    assert_eq!(acolchar_en_flujo(&[0u8; 17], 16).len(), 32);
}

#[test]
fn un_contenido_que_ya_cae_justo_igual_se_acolcha() {
    let salida = acolchar_en_flujo(&[0u8; 16], 16);
    assert_eq!(salida.len(), 32);
    assert_eq!(salida[16], MARCA_RELLENO);
}

#[test]
fn la_vuelta_completa_devuelve_lo_mismo() {
    for largo in [0usize, 1, 15, 16, 17, 100, 4095, 4096, 4097] {
        let datos: Vec<u8> = (0..largo).map(|i| (i % 251) as u8).collect();
        let ida = acolchar_en_flujo(&datos, 4096);
        assert_eq!(ida.len() % 4096, 0, "largo {largo}");
        assert_eq!(desacolchar(&ida).unwrap(), datos, "largo {largo}");
    }
}

#[test]
fn contenido_que_termina_en_marca_y_ceros_no_confunde() {
    let datos = b"antes\x80\x00\x00\x00".to_vec();
    let ida = acolchar_en_flujo(&datos, 16);
    assert_eq!(desacolchar(&ida).unwrap(), datos);
}

#[test]
fn contenido_de_puros_ceros_vuelve_entero() {
    let datos = vec![0u8; 300];
    let ida = acolchar_en_flujo(&datos, 64);
    assert_eq!(desacolchar(&ida).unwrap(), datos);
}

#[test]
fn contenido_que_termina_en_ceros_sin_marca_vuelve_entero() {
    let datos = b"hola\x00\x00\x00".to_vec();
    let ida = acolchar_en_flujo(&datos, 8);
    assert_eq!(desacolchar(&ida).unwrap(), datos);
}

#[test]
fn desacolchar_algo_sin_marca_falla() {
    let e = desacolchar(b"sin ninguna marca").unwrap_err();
    assert_eq!(e.codigo(), SALIDA_ERROR);
    assert!(e.mensaje().contains("0x80"));
}

#[test]
fn el_acolchado_cruza_los_bordes_de_lectura() {
    let datos = vec![7u8; 200_000];
    let ida = acolchar_en_flujo(&datos, 1024);
    assert_eq!(desacolchar(&ida).unwrap(), datos);
}

// --- more ----------------------------------------------------------------

#[test]
fn la_cola_es_la_marca_y_ceros() {
    let mut r = Rellenador::nuevo(8);
    r.anotar(3);
    assert_eq!(r.escritos, 3);
    assert_eq!(r.finalizar(), vec![0x80, 0, 0, 0, 0]);
    assert_eq!(acolchar(b"abc", 4), b"abc\x80".to_vec());
    assert_eq!(acolchar(b"", 3), vec![0x80, 0, 0]);
    assert_eq!(acolchar(b"abcd", 4), b"abcd\x80\x00\x00\x00".to_vec());
}

#[test]
fn acolchar_de_una_y_en_flujo_da_lo_mismo() {
    for largo in [0usize, 5, 31, 32, 33] {
        let datos: Vec<u8> = (0..largo).map(|i| i as u8).collect();
        assert_eq!(acolchar(&datos, 32), acolchar_en_flujo(&datos, 32));
    }
}

#[test]
fn un_bloque_de_un_byte_agrega_solo_la_marca() {
    assert_eq!(acolchar(b"xyz", 1), b"xyz\x80".to_vec());
    assert_eq!(desacolchar(b"xyz\x80").unwrap(), b"xyz".to_vec());
}

#[test]
fn desacolchar_saca_solo_la_ultima_marca_seguida_de_ceros() {
    assert_eq!(desacolchar(b"a\x80b\x80\x00").unwrap(), b"a\x80b".to_vec());
    assert_eq!(desacolchar(b"\x80\x00\x80").unwrap(), b"\x80\x00".to_vec());
    assert_eq!(desacolchar(b"\x80").unwrap(), Vec::<u8>::new());
    assert_eq!(
        desacolchar(b"a\x80\x00b").unwrap_err().mensaje(),
        "esto no termina en acolchado: no encontre la marca 0x80"
    );
    assert_eq!(
        desacolchar(b"").unwrap_err().mensaje(),
        "esto no termina en acolchado: no encontre la marca 0x80"
    );
}

#[test]
fn lo_retenido_es_solo_lo_que_todavia_puede_ser_relleno() {
    let mut retenido = Vec::new();
    let mut salida = Vec::new();
    desrellenar(&mut retenido, b"ab\x80\x00", &mut salida).unwrap();
    assert_eq!(salida, b"ab".to_vec());
    assert_eq!(retenido, b"\x80\x00".to_vec());
    desrellenar(&mut retenido, b"\x00", &mut salida).unwrap();
    assert_eq!(salida, b"ab".to_vec());
    assert_eq!(retenido, b"\x80\x00\x00".to_vec());
    desrellenar(&mut retenido, b"c", &mut salida).unwrap();
    assert_eq!(salida, b"ab\x80\x00\x00c".to_vec());
    assert!(retenido.is_empty());
    assert_eq!(
        desrellenar(&mut retenido, b"", &mut salida).unwrap_err().mensaje(),
        "esto no termina en acolchado: no encontre la marca 0x80"
    );
    desrellenar(&mut retenido, b"\x80", &mut salida).unwrap();
    desrellenar(&mut retenido, b"", &mut salida).unwrap();
    assert_eq!(retenido, b"\x80".to_vec());
    assert_eq!(salida, b"ab\x80\x00\x00c".to_vec());
}

#[test]
fn lo_retenido_no_puede_pasar_el_bloque_mas_grande() {
    let mut retenido = Vec::new();
    let mut salida = Vec::new();
    let mut leido = b"pre\x80".to_vec();
    leido.extend(std::iter::repeat(0u8).take(BLOQUE_MAX as usize - 1));
    desrellenar(&mut retenido, &leido, &mut salida).unwrap();
    assert_eq!(salida, b"pre".to_vec());
    assert_eq!(retenido.len() as u64, BLOQUE_MAX);
    assert_eq!(
        desrellenar(&mut retenido, &[0], &mut salida).unwrap_err().mensaje(),
        "la cola de ceros pasa los 16777216 bytes: ningun acolchado puede medir tanto"
    );
    assert_eq!(salida, b"pre".to_vec());

    // In one read: what precedes the tail is written even so.
    let mut retenido = Vec::new();
    let mut salida = Vec::new();
    leido.push(0);
    assert!(desrellenar(&mut retenido, &leido, &mut salida).is_err());
    assert_eq!(salida, b"pre".to_vec());
}

#[test]
fn sin_marca_todo_lo_leido_ya_salio() {
    let mut salida = b">".to_vec();
    let e = copiar_sin_relleno(b"sin ninguna marca", &mut salida).unwrap_err();
    assert_eq!(e.mensaje(), "esto no termina en acolchado: no encontre la marca 0x80");
    assert_eq!(salida, b">sin ninguna marca".to_vec());

    let mut salida = Vec::new();
    assert_eq!(copiar_sin_relleno(b"abc\x80\x00", &mut salida).unwrap(), 3);
    assert_eq!(salida, b"abc".to_vec());
}

#[test]
fn la_vuelta_completa_no_depende_de_como_se_lea() {
    let datos: Vec<u8> = (0..5000).map(|i| (i % 7) as u8 * 0x40).collect();
    for bloque in [1u64, 3, 64, 4096] {
        let ida = acolchar(&datos, bloque);
        for trozo in [1usize, 2, 7, 100, 4096, 70_000] {
            assert_eq!(desacolchar_a_trozos(&ida, trozo).unwrap(), datos, "{bloque} {trozo}");
        }
    }
}
