//! What closes and opens an envelope: a passphrase (scrypt), or x25519 keys.
//!
//! The cryptography is `age`'s. This module decides which recipients and
//! identities to hand it, parses the keys written as text, and keeps the scrypt
//! work factor inside the range `age` accepts without panicking.

use vstd::prelude::*;
use vstd::string::StrSliceExecFns;

use crate::clave::{borrar, borrar_texto};
use crate::argumentos::{
    lema_posicion_de, posicion_de, textos, unir, unir3, valores_en_rango, Opciones, OpcionesVista,
};
use crate::error::{falla_con, Error};
use crate::texto::{caracteres, citado, citar, limites_recortados, recortar};

verus! {

#[verifier::external_type_specification]
#[verifier::external_body]
pub struct ExDestinatarioX25519(age::x25519::Recipient);

#[verifier::external_type_specification]
#[verifier::external_body]
pub struct ExIdentidadX25519(age::x25519::Identity);

#[verifier::external_type_specification]
#[verifier::external_body]
pub struct ExDestinatarioScrypt(age::scrypt::Recipient);

#[verifier::external_type_specification]
#[verifier::external_body]
pub struct ExIdentidadScrypt(age::scrypt::Identity);

#[verifier::external_type_specification]
#[verifier::external_body]
pub struct ExCifrador(age::Encryptor);

#[verifier::external_type_specification]
#[verifier::external_body]
pub struct ExErrorDeCifrado(age::EncryptError);

// ---------------------------------------------------------------------------
// x25519 keys written as text
// ---------------------------------------------------------------------------

/// Why `age` refuses `texto` as an x25519 public key (Bech32 with the `age`
/// prefix and a 32-byte key), or `None` when it accepts it.
pub uninterp spec fn rechazo_de_destinatario(texto: Seq<char>) -> Option<Seq<char>>;

/// An x25519 public key as `age` parsed it, with the text it was parsed from.
pub struct Destinatario {
    pub llave: age::x25519::Recipient,
    texto: Ghost<Seq<char>>,
}

impl Destinatario {
    /// The text this key was parsed from.
    pub closed spec fn texto(self) -> Seq<char> {
        self.texto@
    }
}

/// `age::x25519::Recipient::from_str`: parses a public key. Its error is a
/// fixed text, which carries nothing of the input.
#[verifier::external_body]
fn destinatario_desde(texto: &str) -> (r: Result<Destinatario, &'static str>)
    ensures
        match rechazo_de_destinatario(texto@) {
            None => r matches Ok(d) && d.texto() == texto@,
            Some(m) => r matches Err(e) && e@ == m,
        },
{
    let g = Ghost(texto@);
    match <age::x25519::Recipient as std::str::FromStr>::from_str(texto) {
        Ok(llave) => Ok(Destinatario { llave, texto: g }),
        Err(e) => Err(e),
    }
}

/// Why `age` refuses `texto` as an x25519 identity (Bech32 with the
/// `AGE-SECRET-KEY-` prefix and a 32-byte key), or `None` when it accepts it.
pub uninterp spec fn rechazo_de_identidad(texto: Seq<char>) -> Option<Seq<char>>;

/// An x25519 identity as `age` parsed it, with the text of its private key.
pub struct Identidad {
    pub identidad: age::x25519::Identity,
    privada: Ghost<Seq<char>>,
}

impl Identidad {
    /// The text of the private key this identity was parsed from.
    pub closed spec fn privada(self) -> Seq<char> {
        self.privada@
    }
}

/// `age::x25519::Identity::from_str`: parses a private key. Its error is a
/// fixed text, which carries nothing of the secret.
#[verifier::external_body]
fn identidad_desde(texto: &str) -> (r: Result<Identidad, &'static str>)
    ensures
        match rechazo_de_identidad(texto@) {
            None => r matches Ok(i) && i.privada() == texto@,
            Some(m) => r matches Err(e) && e@ == m,
        },
{
    let g = Ghost(texto@);
    match <age::x25519::Identity as std::str::FromStr>::from_str(texto) {
        Ok(identidad) => Ok(Identidad { identidad, privada: g }),
        Err(e) => Err(e),
    }
}

/// The message when the public key `texto` is refused for `motivo`.
pub open spec fn msg_destinatario(texto: Seq<char>, motivo: Seq<char>) -> Seq<char> {
    citado(texto) + " no es una clave publica age valida: "@ + motivo
}

/// The message for the first of `ts` that is not a public key, trimmed; `None` when all are.
pub open spec fn rechazo_de_destinatarios(ts: Seq<Seq<char>>) -> Option<Seq<char>>
    decreases ts.len(),
{
    if ts.len() == 0 {
        None
    } else {
        match rechazo_de_destinatario(recortar(ts[0])) {
            Some(m) => Some(msg_destinatario(ts[0], m)),
            None => rechazo_de_destinatarios(ts.drop_first()),
        }
    }
}

/// `s.trim()`.
fn recortar_str(s: &str) -> (r: &str)
    ensures
        r@ == recortar(s@),
{
    let cs = caracteres(s);
    let (a, b) = limites_recortados(cs.as_slice());
    s.substring_char(a, b)
}

/// The `--para` public keys, each trimmed, in order. Fails at the first one
/// that is not a key.
pub fn leer_destinatarios(para: &[String]) -> (r: Result<Vec<Destinatario>, Error>)
    ensures
        match rechazo_de_destinatarios(textos(para@)) {
            None => r matches Ok(v) && v@.len() == para@.len() && forall|i: int|
                0 <= i < v@.len() ==> #[trigger] v@[i].texto() == recortar(para@[i]@),
            Some(m) => falla_con(r, m),
        },
{
    let ghost ts = textos(para@);
    let mut v: Vec<Destinatario> = Vec::new();
    let mut i: usize = 0;
    assert(ts.skip(0) =~= ts);
    while i < para.len()
        invariant
            i <= para@.len(),
            ts == textos(para@),
            v@.len() == i,
            forall|j: int| 0 <= j < i ==> #[trigger] v@[j].texto() == recortar(para@[j]@),
            rechazo_de_destinatarios(ts) == rechazo_de_destinatarios(ts.skip(i as int)),
        decreases para.len() - i,
    {
        let t = para[i].as_str();
        assert(ts.skip(i as int)[0] == t@);
        assert(ts.skip(i as int).drop_first() =~= ts.skip(i + 1));
        match destinatario_desde(recortar_str(t)) {
            Ok(d) => {
                v.push(d);
            },
            Err(e) => {
                let q = citar(t);
                return Err(Error::Otro(unir3(q.as_str(), " no es una clave publica age valida: ", e)));
            },
        }
        i = i + 1;
    }
    assert(ts.skip(i as int) =~= Seq::<Seq<char>>::empty());
    Ok(v)
}

/// The first line of `t` that, trimmed, is neither empty nor a `#` comment; trimmed.
pub open spec fn primera_linea_util(t: Seq<char>) -> Option<Seq<char>>
    decreases t.len(),
{
    let p = posicion_de(t, '\n');
    let l = recortar(t.take(p as int));
    if l.len() > 0 && l[0] != '#' {
        Some(l)
    } else if p < t.len() {
        primera_linea_util(t.skip(p + 1int))
    } else {
        None
    }
}

pub open spec fn msg_sin_identidad(ruta: Seq<char>) -> Seq<char> {
    ruta + " no tiene ninguna identidad adentro"@
}

pub open spec fn msg_identidad_invalida(ruta: Seq<char>, motivo: Seq<char>) -> Seq<char> {
    ruta + " no tiene una identidad age valida: "@ + motivo
}

/// Where the useful line of `cs` is: `cs[a..b]`, when there is one.
fn buscar_linea_util(cs: &[char]) -> (r: Option<(usize, usize)>)
    ensures
        match primera_linea_util(cs@) {
            Some(l) => r matches Some((a, b)) && a <= b <= cs@.len() && cs@.subrange(
                a as int,
                b as int,
            ) == l,
            None => r is None,
        },
{
    let n = cs.len();
    let mut inicio: usize = 0;
    assert(cs@.skip(0) =~= cs@);
    while inicio <= n
        invariant
            inicio <= n + 1,
            n == cs@.len(),
            inicio <= n ==> primera_linea_util(cs@) == primera_linea_util(cs@.skip(inicio as int)),
            inicio > n ==> primera_linea_util(cs@) is None,
        decreases n + 1 - inicio,
    {
        let ghost t = cs@.skip(inicio as int);
        let mut fin = inicio;
        while fin < n && cs[fin] != '\n'
            invariant
                inicio <= fin <= n,
                n == cs@.len(),
                forall|k: int| inicio <= k < fin ==> cs@[k] != '\n',
            decreases n - fin,
        {
            fin = fin + 1;
        }
        proof {
            assert forall|k: int| 0 <= k < fin - inicio implies t[k] != '\n' by {
                assert(t[k] == cs@[inicio + k]);
            }
            if fin < n {
                assert(t[fin - inicio] == cs@[fin as int]);
            }
            lema_posicion_de(t, '\n', fin - inicio);
        }
        let linea = vstd::slice::slice_subrange(cs, inicio, fin);
        assert(linea@ =~= t.take(fin - inicio));
        let (a, b) = limites_recortados(linea);
        if a < b && linea[a] != '#' {
            assert(cs@.subrange(inicio + a, inicio + b) =~= linea@.subrange(a as int, b as int));
            return Some((inicio + a, inicio + b));
        }
        if fin == n {
            return None;
        }
        assert(t.skip(fin - inicio + 1) =~= cs@.skip(fin + 1));
        inicio = fin + 1;
    }
    None
}

/// The x25519 identity in the text of an identity file: its first line that
/// is neither empty nor a `#` comment. `ruta` names the file in messages.
///
/// The whole text is as secret as a passphrase; the copy of it made here is
/// erased before returning.
pub fn identidad_de_texto(texto: &str, ruta: &str) -> (r: Result<Identidad, Error>)
    ensures
        match primera_linea_util(texto@) {
            None => falla_con(r, msg_sin_identidad(ruta@)),
            Some(l) => match rechazo_de_identidad(l) {
                None => r matches Ok(i) && i.privada() == l,
                Some(m) => falla_con(r, msg_identidad_invalida(ruta@, m)),
            },
        },
{
    let mut cs = caracteres(texto);
    let encontrada = buscar_linea_util(cs.as_slice());
    borrar(&mut cs);
    match encontrada {
        None => Err(Error::Otro(unir(ruta, " no tiene ninguna identidad adentro"))),
        Some((a, b)) => {
            let linea = texto.substring_char(a, b);
            match identidad_desde(linea) {
                Ok(id) => Ok(id),
                Err(e) => Err(Error::Otro(unir3(ruta, " no tiene una identidad age valida: ", e))),
            }
        },
    }
}

// ---------------------------------------------------------------------------
// The identity file
// ---------------------------------------------------------------------------

/// What an identity file holds: a comment with the public key, then the
/// private key on a line of its own.
pub open spec fn archivo_de_identidad(publica: Seq<char>, privada: Seq<char>) -> Seq<char> {
    "# clave publica: "@ + publica + "\n"@ + privada + "\n"@
}

/// The text of the identity file for a new x25519 identity: the public key
/// in a comment, and the private key, which is as secret as a passphrase.
pub fn texto_de_identidad(publica: &str, privada: &str) -> (r: String)
    ensures
        r@ == archivo_de_identidad(publica@, privada@),
{
    let mut r = "# clave publica: ".to_owned();
    r.append(publica);
    r.append("\n");
    r.append(privada);
    r.append("\n");
    r
}

/// What is written as an identity file is read back as that identity: the
/// comment with the public key is skipped, and the private key is the line
/// that `--identidad` reads, as long as neither key holds a newline and the
/// private one is already trimmed and does not start with `#`, as `age`
/// writes them.
pub proof fn ley_la_identidad_escrita_se_lee(publica: Seq<char>, privada: Seq<char>)
    requires
        !publica.contains('\n'),
        !privada.contains('\n'),
        privada.len() > 0,
        privada[0] != '#',
        recortar(privada) == privada,
    ensures
        primera_linea_util(archivo_de_identidad(publica, privada)) == Some(privada),
{
    reveal_strlit("# clave publica: ");
    reveal_strlit("\n");
    let c = "# clave publica: "@ + publica;
    let t = archivo_de_identidad(publica, privada);
    let p = c.len() as int;
    assert(t =~= c + (seq!['\n'] + (privada + seq!['\n'])));
    assert forall|k: int| 0 <= k < p implies t[k] != '\n' by {
        assert(t[k] == c[k]);
        if k >= 17 {
            assert(c[k] == publica[k - 17]);
        }
    }
    assert(t[p] == '\n');
    lema_posicion_de(t, '\n', p);
    assert(t.take(p) =~= c);
    assert(c[0] == '#');
    crate::texto::lema_recortar_empieza_igual(c);
    let t2 = t.skip(p + 1);
    assert(t2 =~= privada + seq!['\n']);
    assert forall|k: int| 0 <= k < privada.len() implies t2[k] != '\n' by {
        assert(t2[k] == privada[k]);
    }
    lema_posicion_de(t2, '\n', privada.len() as int);
    assert(t2.take(privada.len() as int) =~= privada);
    assert(primera_linea_util(t2) == Some(privada));
    let l1 = recortar(t.take(p));
    assert(l1.len() > 0 && l1[0] == '#');
    assert(p < t.len());
    assert(primera_linea_util(t) == primera_linea_util(t.skip(p + 1)));
}

/// A character of a key written by `age`: Bech32 writes ASCII letters and
/// digits, and the prefix of a private key holds `-`.
pub open spec fn de_clave(c: char) -> bool {
    ||| 'A' <= c <= 'Z'
    ||| 'a' <= c <= 'z'
    ||| '0' <= c <= '9'
    ||| c == '-'
}

/// The public key, as `age` writes it (lower-case Bech32 with the `age`
/// prefix), of the x25519 identity whose private key is written as `privada`.
pub uninterp spec fn publica_de_privada(privada: Seq<char>) -> Seq<char>;

/// `age::x25519::Identity::generate`: a new identity, from the operating
/// system's random generator. Nothing is stated of which one.
#[verifier::external_body]
fn identidad_nueva() -> (r: age::x25519::Identity) {
    age::x25519::Identity::generate()
}

/// The two texts of an identity: its public key (`to_public`, written by
/// `Display` in lower-case Bech32 with the `age` prefix) and its private key
/// (`to_string`, exposed: upper-case Bech32 starting with `AGE-SECRET-KEY-1`).
/// `Recipient::from_str` and `Identity::from_str` parse them back.
#[verifier::external_body]
fn textos_de_identidad(id: &age::x25519::Identity) -> (r: (String, String))
    ensures
        r.0@ == publica_de_privada(r.1@),
        r.0@.len() > 0,
        forall|i: int| 0 <= i < r.0@.len() ==> de_clave(#[trigger] r.0@[i]),
        rechazo_de_destinatario(r.0@) is None,
        r.1@.len() > 0,
        r.1@[0] == 'A',
        forall|i: int| 0 <= i < r.1@.len() ==> de_clave(#[trigger] r.1@[i]),
        rechazo_de_identidad(r.1@) is None,
{
    (id.to_public().to_string(), age::secrecy::ExposeSecret::expose_secret(&id.to_string()).to_string())
}

/// A new x25519 identity: its public key, and the text of its identity
/// file, whose useful line `identidad_de_texto` reads back as the identity of
/// that public key.
pub fn generar_identidad() -> (r: (String, String))
    ensures
        rechazo_de_destinatario(r.0@) is None,
        exists|k: Seq<char>|
            r.1@ == archivo_de_identidad(r.0@, k) && #[trigger] rechazo_de_identidad(k) is None
                && r.0@ == publica_de_privada(k),
        primera_linea_util(r.1@) matches Some(l) && rechazo_de_identidad(l) is None && r.0@
            == publica_de_privada(l),
{
    let id = identidad_nueva();
    let (publica, mut privada) = textos_de_identidad(&id);
    let archivo = texto_de_identidad(publica.as_str(), privada.as_str());
    let ghost k = privada@;
    borrar_texto(&mut privada);
    proof {
        let p = publica@;
        assert(!p.contains('\n')) by {
            if p.contains('\n') {
                let i = choose|i: int| 0 <= i < p.len() && p[i] == '\n';
                assert(de_clave(p[i]));
            }
        }
        assert(!k.contains('\n')) by {
            if k.contains('\n') {
                let i = choose|i: int| 0 <= i < k.len() && k[i] == '\n';
                assert(de_clave(k[i]));
            }
        }
        assert(de_clave(k[0]) && de_clave(k.last()));
        crate::texto::lema_recortar_sin_blancos_en_las_puntas(k);
        ley_la_identidad_escrita_se_lee(p, k);
    }
    (publica, archivo)
}

// ---------------------------------------------------------------------------
// Closing
// ---------------------------------------------------------------------------

/// The data bytes of `texto` read as Bech32 (`bech32::decode`), or `None`
/// when it is not Bech32.
pub uninterp spec fn datos_bech32(texto: Seq<char>) -> Option<Seq<u8>>;

/// `bech32::decode`: the data bytes of a Bech32 text. For a text that
/// `age::x25519::Recipient::from_str` accepts, they are the 32 bytes of the
/// key.
#[verifier::external_body]
fn datos_de_bech32(texto: &str) -> (r: Option<Vec<u8>>)
    ensures
        match r {
            Some(v) => datos_bech32(texto@) == Some(v@),
            None => datos_bech32(texto@) is None,
        },
{
    match bech32::decode(texto) {
        Ok((_, datos)) => Some(datos),
        Err(_) => None,
    }
}

/// The X25519 u-coordinates of small order, little-endian, with the top bit
/// of the last byte left out: X25519 with any clamped scalar gives the
/// all-zero secret on them, and on nothing else.
pub open spec fn orden_bajo(b: Seq<u8>) -> bool {
    &&& b.len() == 32
    &&& {
        let alto = b[31] % 128;
        ||| (b[0] <= 1 && (forall|i: int| 1 <= i < 31 ==> b[i] == 0) && alto == 0)
        ||| (236 <= b[0] <= 238 && (forall|i: int| 1 <= i < 31 ==> b[i] == 255) && alto == 127)
        ||| (b.take(31) == punto_de_orden_ocho().take(31) && alto == punto_de_orden_ocho()[31])
        ||| (b.take(31) == otro_punto_de_orden_ocho().take(31) && alto
            == otro_punto_de_orden_ocho()[31])
    }
}

/// One of the two points of order eight.
pub open spec fn punto_de_orden_ocho() -> Seq<u8> {
    seq![
        224u8, 235, 122, 124, 59, 65, 184, 174, 22, 86, 227, 250, 241, 159, 196, 106, 218, 9, 141,
        235, 156, 50, 177, 253, 134, 98, 5, 22, 95, 73, 184, 0,
    ]
}

/// The other point of order eight.
pub open spec fn otro_punto_de_orden_ocho() -> Seq<u8> {
    seq![
        95u8, 156, 149, 188, 163, 80, 140, 36, 177, 208, 177, 85, 156, 131, 239, 91, 4, 68, 92,
        196, 88, 28, 142, 134, 216, 34, 78, 221, 208, 159, 17, 87,
    ]
}

/// Whether no envelope can be closed to the key written as `texto`: its
/// bytes are a point of small order, whose shared secret is all zeros.
pub open spec fn clave_debil(texto: Seq<char>) -> bool {
    match datos_bech32(texto) {
        Some(b) => orden_bajo(b),
        None => true,
    }
}

/// Some key of `ts`, trimmed, is one that no envelope can be closed to.
pub open spec fn alguna_debil(ts: Seq<Seq<char>>) -> bool {
    exists|i: int| 0 <= i < ts.len() && #[trigger] clave_debil(recortar(ts[i]))
}

fn bytes_iguales_salvo_el_alto(b: &[u8], p: &[u8]) -> (r: bool)
    requires
        b@.len() == 32,
        p@.len() == 32,
    ensures
        r == (b@.take(31) == p@.take(31) && b@[31] % 128 == p@[31]),
{
    let mut i: usize = 0;
    while i < 31
        invariant
            i <= 31,
            b@.len() == 32,
            p@.len() == 32,
            forall|j: int| 0 <= j < i ==> b@[j] == p@[j],
        decreases 31 - i,
    {
        if b[i] != p[i] {
            assert(b@.take(31)[i as int] != p@.take(31)[i as int]);
            return false;
        }
        i = i + 1;
    }
    assert(b@.take(31) =~= p@.take(31));
    b[31] % 128 == p[31]
}

fn todos_iguales(b: &[u8], desde: usize, hasta: usize, x: u8) -> (r: bool)
    requires
        desde <= hasta <= b@.len(),
    ensures
        r == (forall|i: int| desde <= i < hasta ==> b@[i] == x),
{
    let mut i = desde;
    while i < hasta
        invariant
            desde <= i <= hasta <= b@.len(),
            forall|j: int| desde <= j < i ==> b@[j] == x,
        decreases hasta - i,
    {
        if b[i] != x {
            return false;
        }
        i = i + 1;
    }
    true
}

/// Whether `b` is a point of small order.
fn es_de_orden_bajo(b: &[u8]) -> (r: bool)
    ensures
        r == orden_bajo(b@),
{
    if b.len() != 32 {
        return false;
    }
    let alto = b[31] % 128;
    let ceros = b[0] <= 1 && todos_iguales(b, 1, 31, 0) && alto == 0;
    let unos = 236 <= b[0] && b[0] <= 238 && todos_iguales(b, 1, 31, 255) && alto == 127;
    let ocho: Vec<u8> = vec![
        224u8, 235, 122, 124, 59, 65, 184, 174, 22, 86, 227, 250, 241, 159, 196, 106, 218, 9, 141,
        235, 156, 50, 177, 253, 134, 98, 5, 22, 95, 73, 184, 0,
    ];
    let otro: Vec<u8> = vec![
        95u8, 156, 149, 188, 163, 80, 140, 36, 177, 208, 177, 85, 156, 131, 239, 91, 4, 68, 92,
        196, 88, 28, 142, 134, 216, 34, 78, 221, 208, 159, 17, 87,
    ];
    assert(ocho@ =~= punto_de_orden_ocho());
    assert(otro@ =~= otro_punto_de_orden_ocho());
    let r = ceros || unos || bytes_iguales_salvo_el_alto(b, ocho.as_slice())
        || bytes_iguales_salvo_el_alto(b, otro.as_slice());
    r
}

/// Whether no envelope can be closed to the key written as `texto`.
fn es_debil(texto: &str) -> (r: bool)
    ensures
        r == clave_debil(texto@),
{
    match datos_de_bech32(texto) {
        Some(b) => es_de_orden_bajo(b.as_slice()),
        None => true,
    }
}

/// A passphrase recipient, with what was handed to `age` for it.
struct ReceptorDeClave {
    receptor: age::scrypt::Recipient,
    clave: Ghost<Seq<char>>,
    trabajo: Ghost<Option<u8>>,
}

/// To whom an envelope is closed.
enum Destinatarios {
    /// Whoever knows the passphrase.
    Clave(ReceptorDeClave),
    /// Whoever holds the identity of one of these public keys.
    Publicas(Vec<Destinatario>),
}

/// What an envelope is closed to, as plain values: a passphrase with the
/// work factor fixed on it (`None`: the one `age` measures on this machine),
/// or the texts of the public keys, in order.
pub enum Cierre {
    Clave { clave: Seq<char>, trabajo: Option<u8> },
    Publicas(Seq<Seq<char>>),
}

spec fn cierre_de(d: Destinatarios) -> Cierre {
    match d {
        Destinatarios::Clave(r) => Cierre::Clave { clave: r.clave@, trabajo: r.trabajo@ },
        Destinatarios::Publicas(v) => Cierre::Publicas(v@.map_values(|x: Destinatario| x.texto())),
    }
}

/// An `age` encryptor, with what it closes envelopes to.
pub struct Cifrador {
    pub cifrador: age::Encryptor,
    cierre: Ghost<Cierre>,
}

impl Cifrador {
    /// What this encryptor closes envelopes to.
    pub closed spec fn cierre(self) -> Cierre {
        self.cierre@
    }
}

/// scrypt with the work factor `n` needs `1024 * 2^n` bytes, a size that
/// must fit in a `usize`: `age` panics on a larger one when it closes.
pub open spec fn trabajo_posible(n: u8) -> bool {
    (n as int) + 10 < usize::BITS
}

/// `age::scrypt::Recipient::new`: a recipient for the passphrase `clave`, with
/// the work factor that `age` measures on this machine (about a second).
#[verifier::external_body]
fn receptor_scrypt(clave: String) -> (r: ReceptorDeClave)
    ensures
        r.clave@ == clave@,
        r.trabajo@ is None,
{
    let g = Ghost(clave@);
    ReceptorDeClave {
        receptor: age::scrypt::Recipient::new(age::secrecy::SecretString::from(clave)),
        clave: g,
        trabajo: Ghost(None),
    }
}

/// `age::scrypt::Recipient::set_work_factor`: fixes the work factor at `2^n`.
/// `age` panics outside `0 < n < 64`.
#[verifier::external_body]
fn fijar_trabajo(r: &mut ReceptorDeClave, n: u8)
    requires
        0 < n < 64,
    ensures
        final(r).clave == old(r).clave,
        final(r).trabajo@ == Some(n),
{
    r.receptor.set_work_factor(n);
    r.trabajo = Ghost(Some(n));
}

/// `age::Encryptor::with_recipients`: the encryptor for these recipients.
/// With no recipient at all it fails (`MissingRecipients`). A passphrase
/// alone does not fail, as `age` documents, once its scrypt parameters are
/// valid; `age` panics otherwise. An x25519 key wraps the file key without
/// failing unless its shared secret is all zeros, where `age` panics; the
/// keys carry no labels, so a list of keys without such a one succeeds.
#[verifier::external_body]
fn cifrador_para(d: &Destinatarios) -> (r: Result<Cifrador, age::EncryptError>)
    requires
        d matches Destinatarios::Clave(c) ==> (c.trabajo@ matches Some(n) ==> trabajo_posible(n)),
        d matches Destinatarios::Publicas(v) ==> forall|i: int|
            0 <= i < v@.len() ==> !clave_debil(#[trigger] v@[i].texto()),
    ensures
        r is Err <==> (d matches Destinatarios::Publicas(v) && v@.len() == 0),
        r matches Ok(c) ==> c.cierre() == cierre_de(*d),
{
    let g = Ghost(cierre_de(*d));
    let cifrador = match d {
        Destinatarios::Clave(c) => age::Encryptor::with_recipients(
            std::iter::once(&c.receptor as &dyn age::Recipient),
        ),
        Destinatarios::Publicas(v) => age::Encryptor::with_recipients(
            v.iter().map(|p| &p.llave as &dyn age::Recipient),
        ),
    }?;
    Ok(Cifrador { cifrador, cierre: g })
}

/// The `Display` text of an encryption error. `age` writes it through its
/// localization catalogue, so nothing is stated of it.
#[verifier::external_body]
fn texto_de_error_de_cifrado(e: age::EncryptError) -> (r: String) {
    format!("{e}")
}

/// The texts of the `--para` keys, trimmed.
pub open spec fn claves_recortadas(para: Seq<Seq<char>>) -> Seq<Seq<char>> {
    para.map_values(|t: Seq<char>| recortar(t))
}

/// Whether some `--para` key, trimmed, is one that no envelope can be closed to.
fn hay_debil(para: &[String]) -> (b: bool)
    ensures
        b == alguna_debil(textos(para@)),
{
    let ghost ts = textos(para@);
    let mut i: usize = 0;
    while i < para.len()
        invariant
            i <= para@.len(),
            ts == textos(para@),
            forall|j: int| 0 <= j < i ==> !clave_debil(recortar(#[trigger] ts[j])),
        decreases para.len() - i,
    {
        let t = para[i].as_str();
        assert(ts[i as int] == t@);
        if es_debil(recortar_str(t)) {
            assert(clave_debil(recortar(ts[i as int])));
            return true;
        }
        i = i + 1;
    }
    false
}

/// What an order `cifrar` gives: with a passphrase, an encryptor to it with
/// the `--trabajo` factor; otherwise the error for the first `--para` key
/// that is not a key, or an encryptor to all of them, trimmed, in order, or
/// an error when there is none.
pub open spec fn cifrador_de(o: OpcionesVista, clave: Option<Seq<char>>, r: Result<Cifrador, Error>) -> bool {
    match clave {
        Some(c) => r matches Ok(x) && x.cierre() == Cierre::Clave { clave: c, trabajo: o.trabajo },
        None => match rechazo_de_destinatarios(o.para) {
            Some(m) => falla_con(r, m),
            None => if o.para.len() > 0 {
                r matches Ok(x) && x.cierre() == Cierre::Publicas(claves_recortadas(o.para))
            } else {
                r is Err
            },
        },
    }
}

pub open spec fn clave_vista(clave: Option<String>) -> Option<Seq<char>> {
    match clave {
        Some(c) => Some(c@),
        None => None,
    }
}

/// The encryptor for an order `cifrar`: to the passphrase `clave` when there is
/// one, with the `--trabajo` factor if given; otherwise to the `--para` keys,
/// trimmed, in order.
///
/// `age` panics on a work factor whose scrypt memory does not fit in a
/// `usize`, and on a key whose shared secret is all zeros: neither is taken.
pub fn preparar_cifrador(opciones: &Opciones, clave: Option<String>) -> (r: Result<Cifrador, Error>)
    requires
        valores_en_rango(opciones@),
        clave is Some ==> (opciones@.trabajo matches Some(n) ==> trabajo_posible(n)),
        clave is None && rechazo_de_destinatarios(opciones@.para) is None ==> !alguna_debil(
            opciones@.para,
        ),
    ensures
        cifrador_de(opciones@, clave_vista(clave), r),
{
    let ghost vista = clave_vista(clave);
    let destinatarios = match clave {
        Some(c) => {
            let mut receptor = receptor_scrypt(c);
            if let Some(n) = opciones.trabajo {
                fijar_trabajo(&mut receptor, n);
            }
            Destinatarios::Clave(receptor)
        },
        None => {
            let v = leer_destinatarios(opciones.para.as_slice())?;
            proof {
                assert forall|i: int| 0 <= i < v@.len() implies !clave_debil(
                    #[trigger] v@[i].texto(),
                ) by {
                    assert(textos(opciones.para@)[i] == opciones.para@[i]@);
                    if clave_debil(v@[i].texto()) {
                        assert(clave_debil(recortar(textos(opciones.para@)[i])));
                    }
                }
                assert(v@.map_values(|x: Destinatario| x.texto()) =~= claves_recortadas(
                    opciones@.para,
                ));
            }
            Destinatarios::Publicas(v)
        },
    };
    match cifrador_para(&destinatarios) {
        Ok(c) => Ok(c),
        Err(e) => Err(Error::Otro(texto_de_error_de_cifrado(e))),
    }
}

/// `preparar_cifrador` where it can be called: `None`, and nothing handed to
/// `age`, when every `--para` key is a key and one of them is of small order,
/// the input on which closing the envelope panics.
pub fn intentar_cifrador(opciones: &Opciones, clave: Option<String>) -> (r: Option<
    Result<Cifrador, Error>,
>)
    requires
        valores_en_rango(opciones@),
        clave is Some ==> (opciones@.trabajo matches Some(n) ==> trabajo_posible(n)),
    ensures
        r is None <==> (clave is None && rechazo_de_destinatarios(opciones@.para) is None
            && alguna_debil(opciones@.para)),
        r matches Some(x) ==> cifrador_de(opciones@, clave_vista(clave), x),
{
    if clave.is_none() {
        match leer_destinatarios(opciones.para.as_slice()) {
            Err(e) => {
                return Some(Err(e));
            },
            Ok(_) => {},
        }
        if hay_debil(opciones.para.as_slice()) {
            return None;
        }
    }
    Some(preparar_cifrador(opciones, clave))
}


// ---------------------------------------------------------------------------
// Opening
// ---------------------------------------------------------------------------

/// The identity that opens envelopes closed with a passphrase, with what was
/// handed to `age` for it: the passphrase, and the largest work factor set
/// on it (`None`: the one `age` sets, four above what this machine does in
/// about a second).
pub struct LlaveDeClave {
    pub identidad: age::scrypt::Identity,
    clave: Ghost<Seq<char>>,
    max_trabajo: Ghost<Option<u8>>,
}

impl LlaveDeClave {
    /// The passphrase handed to `age`.
    pub closed spec fn clave(self) -> Seq<char> {
        self.clave@
    }

    /// The largest work factor set on the identity, if one was.
    pub closed spec fn max_trabajo(self) -> Option<u8> {
        self.max_trabajo@
    }
}

/// `age::scrypt::Identity::new`: the identity of the passphrase `clave`, which
/// accepts up to four work factors above what this machine does in a second.
#[verifier::external_body]
fn identidad_scrypt(clave: String) -> (r: LlaveDeClave)
    ensures
        r.clave() == clave@,
        r.max_trabajo() is None,
{
    let g = Ghost(clave@);
    LlaveDeClave {
        identidad: age::scrypt::Identity::new(age::secrecy::SecretString::from(clave)),
        clave: g,
        max_trabajo: Ghost(None),
    }
}

/// `age::scrypt::Identity::set_max_work_factor`: the largest work factor accepted.
#[verifier::external_body]
fn fijar_max_trabajo(id: &mut LlaveDeClave, n: u8)
    ensures
        final(id).clave() == old(id).clave(),
        final(id).max_trabajo() == Some(n),
{
    id.identidad.set_max_work_factor(n);
    id.max_trabajo = Ghost(Some(n));
}

/// The identity that opens an envelope closed with the passphrase `clave`,
/// accepting up to `max_trabajo` when given.
pub fn llave_de_clave(clave: String, max_trabajo: Option<u8>) -> (r: LlaveDeClave)
    ensures
        r.clave() == clave@,
        r.max_trabajo() == max_trabajo,
{
    let mut id = identidad_scrypt(clave);
    if let Some(n) = max_trabajo {
        fijar_max_trabajo(&mut id, n);
    }
    id
}

} // verus!
