use sobre::argumentos::{parsear_tamano, parsear_trabajo};

#[test]
fn los_tamanos_se_entienden_con_y_sin_sufijo() {
    assert_eq!(parsear_tamano("4096").unwrap(), 4096);
    assert_eq!(parsear_tamano("4K").unwrap(), 4096);
    assert_eq!(parsear_tamano("4k").unwrap(), 4096);
    assert_eq!(parsear_tamano("4KB").unwrap(), 4096);
    assert_eq!(parsear_tamano("4KiB").unwrap(), 4096);
    assert_eq!(parsear_tamano("1M").unwrap(), 1024 * 1024);
    assert!(parsear_tamano("0").is_err());
    assert!(parsear_tamano("banana").is_err());
    assert!(parsear_tamano("1G").is_err(), "1G pasa el tope de 16M");
}

#[test]
fn el_factor_de_trabajo_se_valida_antes_de_que_age_panickee() {
    assert_eq!(parsear_trabajo("18").unwrap(), 18);
    assert!(parsear_trabajo("0").is_err());
    assert!(parsear_trabajo("64").is_err());
    assert!(parsear_trabajo("-1").is_err());
    assert!(parsear_trabajo("ocho").is_err());
}

#[test]
fn los_tamanos_aceptan_espacios_y_el_tope_justo() {
    assert_eq!(parsear_tamano("  16M ").unwrap(), 16 * 1024 * 1024);
    assert_eq!(parsear_tamano("16MiB").unwrap(), 16 * 1024 * 1024);
    assert_eq!(parsear_tamano("16 mb").unwrap(), 16 * 1024 * 1024);
    assert_eq!(parsear_tamano("16777216").unwrap(), 16777216);
    assert_eq!(parsear_tamano("1").unwrap(), 1);
    assert_eq!(parsear_tamano("+2k").unwrap(), 2048);
}

#[test]
fn cada_tamano_rechazado_dice_por_que() {
    assert_eq!(
        parsear_tamano("banana").unwrap_err().mensaje(),
        "no entiendo el tamano \"banana\". Probá 4096, 4K, 1M."
    );
    assert_eq!(
        parsear_tamano("0K").unwrap_err().mensaje(),
        "un bloque de cero bytes no acolcha nada"
    );
    assert_eq!(
        parsear_tamano("16777217").unwrap_err().mensaje(),
        "el bloque mas grande que acepto es 16777216 bytes (16M), y pediste 16777217"
    );
    assert_eq!(
        parsear_tamano("1G").unwrap_err().mensaje(),
        "el bloque mas grande que acepto es 16777216 bytes (16M), y pediste 1073741824"
    );
    assert_eq!(
        parsear_tamano("18446744073709551615G").unwrap_err().mensaje(),
        "el tamano \"18446744073709551615G\" no entra en 64 bits"
    );
    assert_eq!(
        parsear_tamano("18446744073709551616").unwrap_err().mensaje(),
        "no entiendo el tamano \"18446744073709551616\". Probá 4096, 4K, 1M."
    );
    assert_eq!(
        parsear_tamano("K").unwrap_err().mensaje(),
        "no entiendo el tamano \"K\". Probá 4096, 4K, 1M."
    );
}

#[test]
fn cada_factor_rechazado_dice_por_que() {
    assert_eq!(parsear_trabajo(" 63 ").unwrap(), 63);
    assert_eq!(parsear_trabajo("1").unwrap(), 1);
    assert_eq!(
        parsear_trabajo("64").unwrap_err().mensaje(),
        "el factor de trabajo va de 1 a 63, y pediste 64"
    );
    assert_eq!(
        parsear_trabajo("0").unwrap_err().mensaje(),
        "el factor de trabajo va de 1 a 63, y pediste 0"
    );
    assert_eq!(
        parsear_trabajo("256").unwrap_err().mensaje(),
        "el factor de trabajo \"256\" no es un numero de 1 a 63"
    );
    assert_eq!(
        parsear_trabajo("ocho").unwrap_err().mensaje(),
        "el factor de trabajo \"ocho\" no es un numero de 1 a 63"
    );
}
