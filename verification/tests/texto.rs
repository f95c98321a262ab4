use sobre::texto::{
    cadena_de, caracteres, empieza, en_decimal, en_mayusculas, iguales, leer_numero,
    limites_recortados, recortado, termina,
};

fn cs(s: &str) -> Vec<char> {
    s.chars().collect()
}

#[test]
fn los_numeros_van_y_vuelven_en_decimal() {
    assert_eq!(en_decimal(0), "0");
    assert_eq!(en_decimal(7), "7");
    assert_eq!(en_decimal(1234567890), "1234567890");
    assert_eq!(en_decimal(u64::MAX), "18446744073709551615");
    assert_eq!(leer_numero(&cs("18446744073709551615")), Some(u64::MAX));
    assert_eq!(leer_numero(&cs("18446744073709551616")), None);
    assert_eq!(leer_numero(&cs("+42")), Some(42));
    assert_eq!(leer_numero(&cs("007")), Some(7));
    assert_eq!(leer_numero(&cs("")), None);
    assert_eq!(leer_numero(&cs("+")), None);
    assert_eq!(leer_numero(&cs("-1")), None);
    assert_eq!(leer_numero(&cs(" 1")), None);
    assert_eq!(leer_numero(&cs("1a")), None);
}

#[test]
fn recortar_saca_los_blancos_de_las_dos_puntas() {
    assert_eq!(recortado(&cs("  hola mundo \t\n")), cs("hola mundo"));
    assert_eq!(recortado(&cs("\u{3000}x\u{a0}")), cs("x"));
    assert_eq!(recortado(&cs("   ")), Vec::<char>::new());
    assert_eq!(limites_recortados(&cs(" ab ")), (1, 3));
}

#[test]
fn mayusculas_solo_en_ascii() {
    assert_eq!(en_mayusculas(&cs("4kib ñ")), cs("4KIB ñ"));
}

#[test]
fn prefijos_sufijos_e_igualdad() {
    assert!(termina(&cs("16MiB"), &cs("iB")));
    assert!(!termina(&cs("B"), &cs("iB")));
    assert!(empieza(&cs("--para"), &cs("--")));
    assert!(!empieza(&cs("-"), &cs("--")));
    assert!(iguales(&cs("abrir"), &cs("abrir")));
    assert!(!iguales(&cs("abrir"), &cs("abri")));
}

#[test]
fn las_cadenas_se_arman_caracter_por_caracter() {
    assert_eq!(caracteres("añ€😀"), vec!['a', 'ñ', '€', '😀']);
    let s = cadena_de(&['a', 'ñ', '€', '😀']);
    assert_eq!(s, "añ€😀");
    assert_eq!(s.capacity(), s.len());
}
