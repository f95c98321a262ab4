//! Text helpers: characters of a string, decimal numbers in and out, Unicode
//! whitespace trimming, ASCII upper case, and building a `String` with its
//! final capacity.

use vstd::prelude::*;

verus! {

// ---------------------------------------------------------------------------
// Characters
// ---------------------------------------------------------------------------

/// The characters of `s`, in order, in a vector allocated once with room for
/// all of them (a string never holds more characters than bytes), so that no
/// copy of them is left behind by growing it.
pub fn caracteres(s: &str) -> (r: Vec<char>)
    ensures
        r@ == s@,
{
    let mut v: Vec<char> = Vec::with_capacity(s.len());
    for c in it: s.chars()
        invariant
            v@ == it.seq().take(it.index() as int),
    {
        v.push(c);
    }
    v
}

/// `String::with_capacity`: an empty string.
#[verifier::external_body]
fn cadena_con_capacidad(capacidad: usize) -> (r: String)
    ensures
        r@ == Seq::<char>::empty(),
{
    String::with_capacity(capacidad)
}

/// `String::push`: appends one character.
#[verifier::external_body]
fn empujar(s: &mut String, c: char)
    ensures
        final(s)@ == old(s)@.push(c),
{
    s.push(c)
}

/// How many bytes `c` takes in UTF-8: one below `U+0080`, two below
/// `U+0800`, three below `U+10000`, four above.
pub open spec fn bytes_utf8(c: char) -> nat {
    let v = c as u32;
    if v < 0x80 {
        1
    } else if v < 0x800 {
        2
    } else if v < 0x10000 {
        3
    } else {
        4
    }
}

/// How many bytes `c` takes in UTF-8.
fn largo_utf8(c: char) -> (n: usize)
    ensures
        n == bytes_utf8(c),
{
    let v = c as u32;
    if v < 0x80 {
        1
    } else if v < 0x800 {
        2
    } else if v < 0x10000 {
        3
    } else {
        4
    }
}

/// A `String` holding `cs`, allocated at its final size so that it never
/// grows: a growing string leaves its old buffer behind, unerased.
pub fn cadena_de(cs: &[char]) -> (r: String)
    ensures
        r@ == cs@,
{
    let mut capacidad: usize = 0;
    let mut i: usize = 0;
    while i < cs.len()
        invariant
            i <= cs.len(),
        decreases cs.len() - i,
    {
        capacidad = capacidad.saturating_add(largo_utf8(cs[i]));
        i = i + 1;
    }
    let mut r = cadena_con_capacidad(capacidad);
    let mut j: usize = 0;
    while j < cs.len()
        invariant
            j <= cs.len(),
            r@ == cs@.take(j as int),
        decreases cs.len() - j,
    {
        empujar(&mut r, cs[j]);
        j = j + 1;
        assert(r@ =~= cs@.take(j as int));
    }
    assert(cs@.take(cs@.len() as int) =~= cs@);
    r
}

/// `Debug` formatting of a string: between double quotes, with escapes.
pub uninterp spec fn citado(s: Seq<char>) -> Seq<char>;

/// `format!("{s:?}")`: `s` between double quotes, with the escapes of `str`'s `Debug`.
#[verifier::external_body]
pub(crate) fn citar(s: &str) -> (r: String)
    ensures
        r@ == citado(s@),
{
    format!("{s:?}")
}

// ---------------------------------------------------------------------------
// Decimal numbers
// ---------------------------------------------------------------------------

/// The digit character for `d < 10`.
pub open spec fn digito(d: nat) -> char {
    (48 + d) as char
}

/// The decimal writing of `n`, as `Display` writes it.
pub open spec fn decimal(n: nat) -> Seq<char>
    decreases n,
{
    if n < 10 {
        seq![digito(n)]
    } else {
        decimal(n / 10).push(digito(n % 10))
    }
}

/// Writes `n` in decimal.
pub fn en_decimal(n: u64) -> (r: String)
    ensures
        r@ == decimal(n as nat),
{
    let mut cifras: Vec<char> = Vec::new();
    let mut m = n;
    let ghost mut resto: Seq<char> = Seq::empty();
    // `cifras` holds the digits already peeled off, least significant first.
    while m >= 10
        invariant
            decimal(n as nat) == decimal(m as nat) + resto,
            cifras@.reverse() == resto,
        decreases m,
    {
        let c = char_de_digito((m % 10) as u32);
        proof {
            assert(decimal(m as nat) == decimal((m / 10) as nat).push(c));
            assert(cifras@.push(c).reverse() =~= seq![c] + cifras@.reverse());
            assert(decimal((m / 10) as nat) + (seq![c] + resto) =~= decimal((m / 10) as nat).push(c)
                + resto);
            resto = seq![c] + resto;
        }
        cifras.push(c);
        m = m / 10;
    }
    let c = char_de_digito(m as u32);
    proof {
        assert(decimal(m as nat) == seq![c]);
        assert(cifras@.push(c).reverse() =~= seq![c] + cifras@.reverse());
        resto = seq![c] + resto;
    }
    cifras.push(c);
    let mut al_derecho: Vec<char> = Vec::new();
    let mut i: usize = cifras.len();
    while i > 0
        invariant
            i <= cifras@.len(),
            al_derecho@ == cifras@.subrange(i as int, cifras@.len() as int).reverse(),
        decreases i,
    {
        i = i - 1;
        al_derecho.push(cifras[i]);
        assert(al_derecho@ =~= cifras@.subrange(i as int, cifras@.len() as int).reverse());
    }
    assert(cifras@.subrange(0, cifras@.len() as int) =~= cifras@);
    assert(al_derecho@ =~= decimal(n as nat));
    cadena_de(al_derecho.as_slice())
}

/// The digit character for `d < 10`.
fn char_de_digito(d: u32) -> (c: char)
    requires
        d < 10,
    ensures
        c == digito(d as nat),
{
    if d == 0 {
        '0'
    } else if d == 1 {
        '1'
    } else if d == 2 {
        '2'
    } else if d == 3 {
        '3'
    } else if d == 4 {
        '4'
    } else if d == 5 {
        '5'
    } else if d == 6 {
        '6'
    } else if d == 7 {
        '7'
    } else if d == 8 {
        '8'
    } else {
        '9'
    }
}

/// `c` is an ASCII decimal digit.
pub open spec fn es_digito(c: char) -> bool {
    '0' <= c <= '9'
}

/// The value of a run of decimal digits.
pub open spec fn valor_digitos(d: Seq<char>) -> int
    decreases d.len(),
{
    if d.len() == 0 {
        0
    } else {
        valor_digitos(d.drop_last()) * 10 + ((d.last() as u32) as int - 48)
    }
}

/// `s` without one leading `+`, which the standard parsers of unsigned numbers accept.
pub open spec fn sin_signo(s: Seq<char>) -> Seq<char> {
    if s.len() > 0 && s[0] == '+' {
        s.drop_first()
    } else {
        s
    }
}

/// The number that `s` writes, as the standard `FromStr` of unsigned integers
/// reads it: an optional `+`, then one or more ASCII digits and nothing else.
pub open spec fn numero(s: Seq<char>) -> Option<int> {
    let d = sin_signo(s);
    if d.len() > 0 && (forall|i: int| 0 <= i < d.len() ==> es_digito(#[trigger] d[i])) {
        Some(valor_digitos(d))
    } else {
        None
    }
}

/// What `FromStr` of an unsigned type whose largest value is `max` gives for `s`.
pub open spec fn numero_hasta(s: Seq<char>, max: int) -> Option<int> {
    match numero(s) {
        Some(v) => if v <= max {
            Some(v)
        } else {
            None
        },
        None => None,
    }
}

proof fn lema_valor_no_negativo(d: Seq<char>)
    requires
        forall|i: int| 0 <= i < d.len() ==> es_digito(#[trigger] d[i]),
    ensures
        valor_digitos(d) >= 0,
    decreases d.len(),
{
    if d.len() > 0 {
        assert forall|i: int| 0 <= i < d.drop_last().len() implies es_digito(
            #[trigger] d.drop_last()[i],
        ) by {
            assert(d.drop_last()[i] == d[i]);
        }
        lema_valor_no_negativo(d.drop_last());
    }
}

/// Reads `s` as an unsigned decimal number: `u64::from_str` on these characters.
pub fn leer_numero(s: &[char]) -> (r: Option<u64>)
    ensures
        match numero_hasta(s@, u64::MAX as int) {
            Some(v) => r matches Some(x) && x == v,
            None => r is None,
        },
{
    let n = s.len();
    let mut inicio: usize = 0;
    if n > 0 && s[0] == '+' {
        inicio = 1;
    }
    let ghost d = sin_signo(s@);
    assert(d =~= s@.subrange(inicio as int, n as int));
    if inicio == n {
        return None;
    }
    let mut acc: u64 = 0;
    let mut desborde = false;
    let mut i = inicio;
    while i < n
        invariant
            inicio <= i <= n,
            n == s@.len(),
            d == sin_signo(s@),
            d == s@.subrange(inicio as int, n as int),
            forall|k: int| inicio <= k < i ==> es_digito(#[trigger] s@[k]),
            !desborde ==> acc == valor_digitos(s@.subrange(inicio as int, i as int)),
            desborde ==> valor_digitos(s@.subrange(inicio as int, i as int)) > u64::MAX,
        decreases n - i,
    {
        let c = s[i];
        if !(c >= '0' && c <= '9') {
            assert(d[i - inicio] == c);
            assert(!es_digito(d[i - inicio]));
            return None;
        }
        let ghost previo = s@.subrange(inicio as int, i as int);
        let ghost siguiente = s@.subrange(inicio as int, i + 1);
        proof {
            assert(siguiente.drop_last() =~= previo);
            assert(siguiente.last() == c);
            assert forall|k: int| 0 <= k < previo.len() implies es_digito(#[trigger] previo[k]) by {
                assert(previo[k] == s@[inicio + k]);
            }
            lema_valor_no_negativo(previo);
        }
        let cifra = (c as u32 - 48) as u64;
        if !desborde {
            match acc.checked_mul(10) {
                Some(por_diez) => match por_diez.checked_add(cifra) {
                    Some(nuevo) => {
                        acc = nuevo;
                    },
                    None => {
                        desborde = true;
                    },
                },
                None => {
                    desborde = true;
                },
            }
        }
        i = i + 1;
    }
    assert(s@.subrange(inicio as int, n as int) =~= d);
    if desborde {
        None
    } else {
        Some(acc)
    }
}

/// Parsing the decimal writing of a number gives the number back.
pub proof fn lema_numero_de_decimal(n: nat)
    ensures
        numero(decimal(n)) == Some(n as int),
        forall|i: int| 0 <= i < decimal(n).len() ==> es_digito(#[trigger] decimal(n)[i]),
        decimal(n).len() > 0,
        decimal(n)[0] != '+',
    decreases n,
{
    assert((digito(n % 10) as u32) as int == 48 + n % 10);
    if n >= 10 {
        lema_numero_de_decimal(n / 10);
        let p = decimal(n / 10);
        assert(sin_signo(p) == p);
        assert(valor_digitos(p) == n / 10);
        assert(decimal(n).drop_last() =~= p);
        assert(decimal(n).last() == digito(n % 10));
        assert(valor_digitos(decimal(n)) == valor_digitos(p) * 10 + (n % 10));
        assert(decimal(n).drop_last() =~= p);
        assert forall|i: int| 0 <= i < decimal(n).len() implies es_digito(#[trigger] decimal(n)[i]) by {
            if i < p.len() {
                assert(decimal(n)[i] == p[i]);
            }
        }
        assert(decimal(n)[0] == p[0]);
    } else {
        assert(decimal(n).drop_last() =~= Seq::<char>::empty());
        assert(valor_digitos(Seq::<char>::empty()) == 0);
        assert(decimal(n).last() == digito(n));
        assert(valor_digitos(decimal(n)) == n);
        assert(es_digito(decimal(n)[0]));
    }
    assert(valor_digitos(decimal(n)) == n);
    assert(sin_signo(decimal(n)) == decimal(n));
}

// ---------------------------------------------------------------------------
// Whitespace and case
// ---------------------------------------------------------------------------

/// The Unicode `White_Space` property, which `char::is_whitespace` and
/// `str::trim` go by.
pub open spec fn es_blanco(c: char) -> bool {
    let v = c as u32;
    ||| 0x09 <= v <= 0x0D
    ||| v == 0x20
    ||| v == 0x85
    ||| v == 0xA0
    ||| v == 0x1680
    ||| 0x2000 <= v <= 0x200A
    ||| v == 0x2028
    ||| v == 0x2029
    ||| v == 0x202F
    ||| v == 0x205F
    ||| v == 0x3000
}

fn blanco(c: char) -> (b: bool)
    ensures
        b == es_blanco(c),
{
    let v = c as u32;
    (0x09 <= v && v <= 0x0D) || v == 0x20 || v == 0x85 || v == 0xA0 || v == 0x1680 || (0x2000 <= v
        && v <= 0x200A) || v == 0x2028 || v == 0x2029 || v == 0x202F || v == 0x205F || v == 0x3000
}

/// `s` without its leading whitespace.
pub open spec fn recortar_inicio(s: Seq<char>) -> Seq<char>
    decreases s.len(),
{
    if s.len() > 0 && es_blanco(s[0]) {
        recortar_inicio(s.drop_first())
    } else {
        s
    }
}

/// `s` without its trailing whitespace.
pub open spec fn recortar_fin(s: Seq<char>) -> Seq<char>
    decreases s.len(),
{
    if s.len() > 0 && es_blanco(s.last()) {
        recortar_fin(s.drop_last())
    } else {
        s
    }
}

/// `str::trim`: `s` without leading and trailing whitespace.
pub open spec fn recortar(s: Seq<char>) -> Seq<char> {
    recortar_fin(recortar_inicio(s))
}

proof fn lema_recortar_inicio(s: Seq<char>, a: int)
    requires
        0 <= a <= s.len(),
        forall|i: int| 0 <= i < a ==> es_blanco(#[trigger] s[i]),
        a < s.len() ==> !es_blanco(s[a]),
    ensures
        recortar_inicio(s) == s.subrange(a, s.len() as int),
    decreases a,
{
    if a > 0 {
        assert forall|i: int| 0 <= i < a - 1 implies es_blanco(#[trigger] s.drop_first()[i]) by {
            assert(s.drop_first()[i] == s[i + 1]);
        }
        if a - 1 < s.drop_first().len() {
            assert(s.drop_first()[a - 1] == s[a]);
        }
        lema_recortar_inicio(s.drop_first(), a - 1);
        assert(s.drop_first().subrange(a - 1, s.drop_first().len() as int) =~= s.subrange(
            a,
            s.len() as int,
        ));
    } else {
        assert(s.subrange(0, s.len() as int) =~= s);
    }
}

proof fn lema_recortar_fin(s: Seq<char>, b: int)
    requires
        0 <= b <= s.len(),
        forall|i: int| b <= i < s.len() ==> es_blanco(#[trigger] s[i]),
        b > 0 ==> !es_blanco(s[b - 1]),
    ensures
        recortar_fin(s) == s.subrange(0, b),
    decreases s.len() - b,
{
    if b < s.len() {
        assert forall|i: int| b <= i < s.drop_last().len() implies es_blanco(
            #[trigger] s.drop_last()[i],
        ) by {
            assert(s.drop_last()[i] == s[i]);
        }
        if b > 0 {
            assert(s.drop_last()[b - 1] == s[b - 1]);
        }
        lema_recortar_fin(s.drop_last(), b);
        assert(s.drop_last().subrange(0, b) =~= s.subrange(0, b));
    } else {
        assert(s.subrange(0, b) =~= s);
    }
}

proof fn lema_fin_conserva_el_principio(s: Seq<char>)
    requires
        s.len() > 0,
        !es_blanco(s[0]),
    ensures
        recortar_fin(s).len() > 0,
        recortar_fin(s)[0] == s[0],
    decreases s.len(),
{
    if s.len() > 1 && es_blanco(s.last()) {
        assert(s.drop_last()[0] == s[0]);
        lema_fin_conserva_el_principio(s.drop_last());
    }
}

/// Trimming a text that starts with something other than whitespace keeps
/// that first character first.
pub proof fn lema_recortar_empieza_igual(s: Seq<char>)
    requires
        s.len() > 0,
        !es_blanco(s[0]),
    ensures
        recortar(s).len() > 0,
        recortar(s)[0] == s[0],
{
    lema_recortar_inicio(s, 0);
    assert(s.subrange(0, s.len() as int) =~= s);
    lema_fin_conserva_el_principio(s);
}

/// A text with no whitespace at either end is its own trim.
pub proof fn lema_recortar_sin_blancos_en_las_puntas(s: Seq<char>)
    requires
        s.len() > 0,
        !es_blanco(s[0]),
        !es_blanco(s.last()),
    ensures
        recortar(s) == s,
{
    lema_recortar_inicio(s, 0);
    assert(s.subrange(0, s.len() as int) =~= s);
    lema_recortar_fin(s, s.len() as int);
}

/// Where `recortar` cuts `s`: the trimmed text is `s[inicio..fin]`.
pub fn limites_recortados(s: &[char]) -> (r: (usize, usize))
    ensures
        r.0 <= r.1 <= s@.len(),
        s@.subrange(r.0 as int, r.1 as int) == recortar(s@),
{
    let n = s.len();
    let mut a: usize = 0;
    while a < n && blanco(s[a])
        invariant
            a <= n,
            n == s@.len(),
            forall|i: int| 0 <= i < a ==> es_blanco(#[trigger] s@[i]),
        decreases n - a,
    {
        a = a + 1;
    }
    proof {
        lema_recortar_inicio(s@, a as int);
    }
    let ghost t = s@.subrange(a as int, n as int);
    let mut b: usize = n;
    while b > a && blanco(s[b - 1])
        invariant
            a <= b <= n,
            n == s@.len(),
            t == s@.subrange(a as int, n as int),
            forall|i: int| b <= i < n ==> es_blanco(#[trigger] s@[i]),
        decreases b,
    {
        b = b - 1;
    }
    proof {
        assert forall|i: int| b - a <= i < t.len() implies es_blanco(#[trigger] t[i]) by {
            assert(t[i] == s@[a + i]);
        }
        if b > a {
            assert(t[b - a - 1] == s@[b - 1]);
        }
        lema_recortar_fin(t, b - a);
        assert(t.subrange(0, b - a) =~= s@.subrange(a as int, b as int));
    }
    (a, b)
}

/// `s.trim()`, as characters.
pub fn recortado(s: &[char]) -> (r: Vec<char>)
    ensures
        r@ == recortar(s@),
{
    let (a, b) = limites_recortados(s);
    let mut r: Vec<char> = Vec::new();
    let mut i = a;
    while i < b
        invariant
            a <= i <= b <= s@.len(),
            r@ == s@.subrange(a as int, i as int),
        decreases b - i,
    {
        r.push(s[i]);
        i = i + 1;
        assert(r@ =~= s@.subrange(a as int, i as int));
    }
    r
}

/// `char::to_ascii_uppercase`.
pub open spec fn mayuscula(c: char) -> char {
    if 'a' <= c <= 'z' {
        ((c as u32) - 32) as char
    } else {
        c
    }
}

/// `str::to_ascii_uppercase`.
pub open spec fn mayusculas(s: Seq<char>) -> Seq<char> {
    s.map_values(|c: char| mayuscula(c))
}

fn a_mayuscula(c: char) -> (r: char)
    ensures
        r == mayuscula(c),
{
    if c == 'a' { 'A' } else if c == 'b' { 'B' } else if c == 'c' { 'C' } else if c == 'd' { 'D' }
    else if c == 'e' { 'E' } else if c == 'f' { 'F' } else if c == 'g' { 'G' } else if c == 'h' { 'H' }
    else if c == 'i' { 'I' } else if c == 'j' { 'J' } else if c == 'k' { 'K' } else if c == 'l' { 'L' }
    else if c == 'm' { 'M' } else if c == 'n' { 'N' } else if c == 'o' { 'O' } else if c == 'p' { 'P' }
    else if c == 'q' { 'Q' } else if c == 'r' { 'R' } else if c == 's' { 'S' } else if c == 't' { 'T' }
    else if c == 'u' { 'U' } else if c == 'v' { 'V' } else if c == 'w' { 'W' } else if c == 'x' { 'X' }
    else if c == 'y' { 'Y' } else if c == 'z' { 'Z' } else { c }
}

/// `s.to_ascii_uppercase()`, as characters.
pub fn en_mayusculas(s: &[char]) -> (r: Vec<char>)
    ensures
        r@ == mayusculas(s@),
{
    let mut r: Vec<char> = Vec::new();
    let mut i: usize = 0;
    while i < s.len()
        invariant
            i <= s@.len(),
            r@ == mayusculas(s@.take(i as int)),
        decreases s.len() - i,
    {
        r.push(a_mayuscula(s[i]));
        i = i + 1;
        assert(r@ =~= mayusculas(s@.take(i as int)));
    }
    assert(s@.take(s@.len() as int) =~= s@);
    r
}

/// `s` ends with `sufijo`.
pub open spec fn termina_con(s: Seq<char>, sufijo: Seq<char>) -> bool {
    sufijo.len() <= s.len() && s.subrange(s.len() - sufijo.len(), s.len() as int) == sufijo
}

/// `s` starts with `prefijo`.
pub open spec fn empieza_con(s: Seq<char>, prefijo: Seq<char>) -> bool {
    prefijo.len() <= s.len() && s.take(prefijo.len() as int) == prefijo
}

/// Whether `s` ends with `sufijo`.
pub fn termina(s: &[char], sufijo: &[char]) -> (b: bool)
    ensures
        b == termina_con(s@, sufijo@),
{
    if sufijo.len() > s.len() {
        return false;
    }
    let base = s.len() - sufijo.len();
    let sl = s.len();
    let mut i: usize = 0;
    while i < sufijo.len()
        invariant
            sl == s@.len(),
            i <= sufijo@.len(),
            base + sufijo@.len() == s@.len(),
            forall|k: int| 0 <= k < i ==> s@[base + k] == sufijo@[k],
        decreases sufijo.len() - i,
    {
        if s[base + i] != sufijo[i] {
            assert(s@.subrange(base as int, s@.len() as int)[i as int] != sufijo@[i as int]);
            return false;
        }
        i = i + 1;
    }
    assert(s@.subrange(base as int, s@.len() as int) =~= sufijo@);
    true
}

/// Whether `s` starts with `prefijo`.
pub fn empieza(s: &[char], prefijo: &[char]) -> (b: bool)
    ensures
        b == empieza_con(s@, prefijo@),
{
    if prefijo.len() > s.len() {
        return false;
    }
    let mut i: usize = 0;
    while i < prefijo.len()
        invariant
            i <= prefijo@.len() <= s@.len(),
            forall|k: int| 0 <= k < i ==> s@[k] == prefijo@[k],
        decreases prefijo.len() - i,
    {
        if s[i] != prefijo[i] {
            assert(s@.take(prefijo@.len() as int)[i as int] != prefijo@[i as int]);
            return false;
        }
        i = i + 1;
    }
    assert(s@.take(prefijo@.len() as int) =~= prefijo@);
    true
}

/// Whether `a` and `b` hold the same characters.
pub fn iguales(a: &[char], b: &[char]) -> (r: bool)
    ensures
        r == (a@ == b@),
{
    if a.len() != b.len() {
        return false;
    }
    let mut i: usize = 0;
    while i < a.len()
        invariant
            i <= a@.len() == b@.len(),
            forall|k: int| 0 <= k < i ==> a@[k] == b@[k],
        decreases a.len() - i,
    {
        if a[i] != b[i] {
            return false;
        }
        i = i + 1;
    }
    assert(a@ =~= b@);
    true
}

} // verus!
