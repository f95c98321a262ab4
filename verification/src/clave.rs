//! The passphrase as it arrives on stdin.
//!
//! With a frame, stdin carries `<length in bytes, ASCII decimal> \n <passphrase>
//! <content>`: the length is exact, so the passphrase keeps every byte, trailing
//! newlines included, and the content after it is left untouched. Without a
//! frame, all of stdin is the passphrase and its trailing newlines, which belong
//! to the pipe, are dropped.
//!
//! The passphrase arrives in UTF-8, or in UTF-16LE (what `Askpass.ps1` writes).

use vstd::prelude::*;
use vstd::utf8::*;

use crate::error::{falla_con, Error};
use crate::texto::{
    cadena_de, caracteres, citado, citar, decimal, en_decimal, leer_numero, lema_numero_de_decimal,
    numero_hasta,
};

verus! {

/// How long the frame header may be, in bytes.
pub const CABECERA_MAX: usize = 20;

/// How long a framed passphrase may be, in bytes.
pub const CLAVE_MAX: usize = 65536;

/// The newline byte.
pub const SALTO: u8 = 10;

// ---------------------------------------------------------------------------
// UTF-16LE
// ---------------------------------------------------------------------------

/// A leading (high) surrogate.
pub open spec fn es_alta(u: u16) -> bool {
    0xD800 <= u <= 0xDBFF
}

/// A trailing (low) surrogate.
pub open spec fn es_baja(u: u16) -> bool {
    0xDC00 <= u <= 0xDFFF
}

/// The scalar that a surrogate pair writes.
pub open spec fn de_par(alta: u16, baja: u16) -> u32 {
    (0x10000 + (alta - 0xD800) * 1024 + (baja - 0xDC00)) as u32
}

/// What `char::decode_utf16` yields for `u`, when every unit decodes: `None`
/// at the first unpaired surrogate.
pub open spec fn decodificar_utf16(u: Seq<u16>) -> Option<Seq<char>>
    decreases u.len(),
{
    if u.len() == 0 {
        Some(Seq::empty())
    } else if es_alta(u[0]) {
        if u.len() >= 2 && es_baja(u[1]) {
            match decodificar_utf16(u.skip(2)) {
                Some(r) => Some(seq![de_par(u[0], u[1]) as char] + r),
                None => None,
            }
        } else {
            None
        }
    } else if es_baja(u[0]) {
        None
    } else {
        match decodificar_utf16(u.skip(1)) {
            Some(r) => Some(seq![(u[0] as u32) as char] + r),
            None => None,
        }
    }
}

/// The UTF-16 units of one character.
pub open spec fn unidades_de(c: char) -> Seq<u16> {
    let v = c as u32;
    if v < 0x10000 {
        seq![v as u16]
    } else {
        let w = v - 0x10000;
        seq![(0xD800 + w / 1024) as u16, (0xDC00 + w % 1024) as u16]
    }
}

/// `str::encode_utf16`.
pub open spec fn codificar_utf16(cs: Seq<char>) -> Seq<u16>
    decreases cs.len(),
{
    if cs.len() == 0 {
        Seq::empty()
    } else {
        unidades_de(cs[0]) + codificar_utf16(cs.drop_first())
    }
}

/// The little-endian bytes of the units.
pub open spec fn bytes_le(us: Seq<u16>) -> Seq<u8> {
    Seq::new(
        2 * us.len(),
        |j: int|
            if j % 2 == 0 {
                (us[j / 2] % 256) as u8
            } else {
                (us[j / 2] / 256) as u8
            },
    )
}

/// The units that little-endian byte pairs write.
pub open spec fn unidades_le(b: Seq<u8>) -> Seq<u16> {
    Seq::new(b.len() / 2, |i: int| (b[2 * i] + b[2 * i + 1] * 256) as u16)
}

proof fn lema_unidades_de_bytes(us: Seq<u16>)
    ensures
        unidades_le(bytes_le(us)) == us,
{
    let b = bytes_le(us);
    assert forall|i: int| 0 <= i < us.len() implies #[trigger] unidades_le(b)[i] == us[i] by {
        assert((2 * i) / 2 == i);
        assert((2 * i + 1) / 2 == i);
        assert((2 * i) % 2 == 0);
        assert((2 * i + 1) % 2 == 1);
    }
    assert(unidades_le(b) =~= us);
}

proof fn lema_utf16_ida_y_vuelta(cs: Seq<char>)
    ensures
        decodificar_utf16(codificar_utf16(cs)) == Some(cs),
    decreases cs.len(),
{
    if cs.len() > 0 {
        let c = cs[0];
        let v = c as u32;
        let u = codificar_utf16(cs);
        let primeras = unidades_de(c);
        lema_utf16_ida_y_vuelta(cs.drop_first());
        assert(is_scalar(v)) by {
            char_is_scalar(c);
        }
        assert(u.skip(primeras.len() as int) =~= codificar_utf16(cs.drop_first()));
        if v < 0x10000 {
            assert(u[0] == v as u16);
            assert(((v as u16) as u32) == v);
            char_u32_cast(c, v);
            assert(seq![c] + cs.drop_first() =~= cs);
        } else {
            let w = v - 0x10000;
            assert(u[0] == (0xD800 + w / 1024) as u16);
            assert(u[1] == (0xDC00 + w % 1024) as u16);
            assert(de_par(u[0], u[1]) == v);
            char_u32_cast(c, v);
            assert(seq![c] + cs.drop_first() =~= cs);
        }
    }
}

/// `char::from_u32`: the character whose scalar value is `v`, if there is one.
#[verifier::external_body]
fn char_de(v: u32) -> (r: Option<char>)
    ensures
        r is Some <==> is_scalar(v),
        r matches Some(c) ==> c as u32 == v,
{
    char::from_u32(v)
}

/// `Zeroize::zeroize` on a vector: overwrites its elements and its spare
/// capacity with zeros, and leaves it empty.
#[verifier::external_body]
pub(crate) fn borrar<T: age::secrecy::zeroize::DefaultIsZeroes>(v: &mut Vec<T>)
    ensures
        final(v)@ == Seq::<T>::empty(),
{
    age::secrecy::zeroize::Zeroize::zeroize(v)
}

/// `Zeroize::zeroize` on a string: overwrites its bytes and its spare
/// capacity with zeros, and leaves it empty.
#[verifier::external_body]
pub(crate) fn borrar_texto(s: &mut String)
    ensures
        final(s)@ == Seq::<char>::empty(),
{
    age::secrecy::zeroize::Zeroize::zeroize(s)
}

/// The units of `crudo`, read as little-endian pairs.
fn unidades(crudo: &[u8]) -> (r: Vec<u16>)
    requires
        crudo@.len() % 2 == 0,
    ensures
        r@ == unidades_le(crudo@),
{
    let n = crudo.len() / 2;
    let mut r: Vec<u16> = Vec::with_capacity(n);
    let mut i: usize = 0;
    assert(2 * n <= crudo@.len());
    while i < n
        invariant
            i <= n,
            2 * n <= crudo@.len() <= usize::MAX,
            n == crudo@.len() / 2,
            r@ == unidades_le(crudo@).take(i as int),
        decreases n - i,
    {
        let u = crudo[2 * i] as u16 + (crudo[2 * i + 1] as u16) * 256;
        r.push(u);
        i = i + 1;
        assert(r@ =~= unidades_le(crudo@).take(i as int));
    }
    assert(unidades_le(crudo@).take(n as int) =~= unidades_le(crudo@));
    r
}

/// `char::decode_utf16` over all of `u`, failing at the first unpaired surrogate.
fn decodificar(u: &[u16]) -> (r: Option<Vec<char>>)
    ensures
        match decodificar_utf16(u@) {
            Some(cs) => r matches Some(v) && v@ == cs,
            None => r is None,
        },
{
    let n = u.len();
    let mut hecho: Vec<char> = Vec::with_capacity(n);
    let mut i: usize = 0;
    proof {
        assert(u@.skip(0) =~= u@);
        match decodificar_utf16(u@) {
            Some(r) => {
                assert(hecho@ + r =~= r);
            },
            None => {},
        }
    }
    while i < n
        invariant
            i <= n,
            n == u@.len(),
            match decodificar_utf16(u@.skip(i as int)) {
                Some(r) => decodificar_utf16(u@) == Some(hecho@ + r),
                None => decodificar_utf16(u@) is None,
            },
        decreases n - i,
    {
        let ghost resto = u@.skip(i as int);
        let a = u[i];
        assert(resto[0] == a);
        if 0xD800 <= a && a <= 0xDBFF {
            if i + 1 < n && 0xDC00 <= u[i + 1] && u[i + 1] <= 0xDFFF {
                let b = u[i + 1];
                assert(resto[1] == b);
                assert(resto.skip(2) =~= u@.skip(i + 2));
                let v: u32 = 0x10000 + ((a - 0xD800) as u32) * 1024 + ((b - 0xDC00) as u32);
                assert(v == de_par(a, b));
                match char_de(v) {
                    Some(c) => {
                        proof {
                            char_u32_cast(c, v);
                            match decodificar_utf16(u@.skip(i + 2)) {
                                Some(r) => {
                                    assert(hecho@ + (seq![c] + r) =~= hecho@.push(c) + r);
                                },
                                None => {},
                            }
                        }
                        hecho.push(c);
                        i = i + 2;
                    },
                    None => {
                        assert(false);
                        borrar(&mut hecho);
                        return None;
                    },
                }
            } else {
                borrar(&mut hecho);
                return None;
            }
        } else if 0xDC00 <= a && a <= 0xDFFF {
            borrar(&mut hecho);
            return None;
        } else {
            let v = a as u32;
            assert(resto.skip(1) =~= u@.skip(i + 1));
            match char_de(v) {
                Some(c) => {
                    proof {
                        char_u32_cast(c, v);
                        match decodificar_utf16(u@.skip(i + 1)) {
                            Some(r) => {
                                assert(hecho@ + (seq![c] + r) =~= hecho@.push(c) + r);
                            },
                            None => {},
                        }
                    }
                    hecho.push(c);
                    i = i + 1;
                },
                None => {
                    assert(false);
                    borrar(&mut hecho);
                    return None;
                },
            }
        }
    }
    assert(u@.skip(n as int) =~= Seq::<u16>::empty());
    assert(hecho@ + Seq::<char>::empty() =~= hecho@);
    Some(hecho)
}

// ---------------------------------------------------------------------------
// The passphrase from its bytes
// ---------------------------------------------------------------------------

pub open spec fn msg_impar() -> Seq<char> {
    "la clave en UTF-16LE tiene un numero impar de bytes"@
}

pub open spec fn msg_utf16() -> Seq<char> {
    "la clave no es UTF-16LE valido"@
}

pub open spec fn msg_utf8() -> Seq<char> {
    "la clave no es UTF-8 valido"@
}

pub open spec fn msg_vacia() -> Seq<char> {
    "no llego ninguna clave por stdin"@
}

/// `s` without its trailing `\n` and `\r`.
pub open spec fn sin_saltos_finales(s: Seq<char>) -> Seq<char>
    decreases s.len(),
{
    if s.len() > 0 && (s.last() == '\n' || s.last() == '\r') {
        sin_saltos_finales(s.drop_last())
    } else {
        s
    }
}

/// The text that `crudo` writes, in UTF-16LE or in UTF-8; the message when it
/// does not write one.
pub open spec fn texto_de_bytes(crudo: Seq<u8>, utf16le: bool) -> Result<Seq<char>, Seq<char>> {
    if utf16le {
        if crudo.len() % 2 != 0 {
            Err(msg_impar())
        } else {
            match decodificar_utf16(unidades_le(crudo)) {
                Some(t) => Ok(t),
                None => Err(msg_utf16()),
            }
        }
    } else if valid_utf8(crudo) {
        Ok(decode_utf8(crudo))
    } else {
        Err(msg_utf8())
    }
}

/// The passphrase that `crudo` holds: its text, without trailing newlines
/// unless it was framed, and never empty.
pub open spec fn clave_de(crudo: Seq<u8>, utf16le: bool, enmarcada: bool) -> Result<
    Seq<char>,
    Seq<char>,
> {
    match texto_de_bytes(crudo, utf16le) {
        Err(m) => Err(m),
        Ok(t) => {
            let k = if enmarcada {
                t
            } else {
                sin_saltos_finales(t)
            };
            if k.len() == 0 {
                Err(msg_vacia())
            } else {
                Ok(k)
            }
        },
    }
}

/// `r` is the text of `esperado`, or fails with its message.
pub open spec fn da_texto(r: Result<String, Error>, esperado: Result<Seq<char>, Seq<char>>) -> bool {
    match esperado {
        Ok(k) => r matches Ok(s) && s@ == k,
        Err(m) => falla_con(r, m),
    }
}

/// `std::str::from_utf8`: the text, when the bytes are valid UTF-8.
#[verifier::external_body]
pub(crate) fn texto_utf8(v: &[u8]) -> (r: Option<&str>)
    ensures
        r is Some <==> valid_utf8(v@),
        r matches Some(s) ==> s@ == decode_utf8(v@),
{
    std::str::from_utf8(v).ok()
}

/// The passphrase that `crudo` holds.
///
/// Every intermediate buffer that holds it is allocated once, with room
/// enough never to grow, and erased before returning, on every path; the
/// result is allocated at its final size.
pub fn clave_de_bytes(crudo: &[u8], utf16le: bool, enmarcada: bool) -> (r: Result<String, Error>)
    ensures
        da_texto(r, clave_de(crudo@, utf16le, enmarcada)),
{
    let mut texto: Vec<char> = if utf16le {
        if crudo.len() % 2 != 0 {
            return Err(Error::otro("la clave en UTF-16LE tiene un numero impar de bytes"));
        }
        let mut u = unidades(crudo);
        let d = decodificar(u.as_slice());
        borrar(&mut u);
        match d {
            Some(t) => t,
            None => {
                return Err(Error::otro("la clave no es UTF-16LE valido"));
            },
        }
    } else {
        match texto_utf8(crudo) {
            Some(s) => caracteres(s),
            None => {
                return Err(Error::otro("la clave no es UTF-8 valido"));
            },
        }
    };
    let ghost t = texto@;
    if !enmarcada {
        while texto.len() > 0 && (texto[texto.len() - 1] == '\n' || texto[texto.len() - 1] == '\r')
            invariant
                sin_saltos_finales(t) == sin_saltos_finales(texto@),
            decreases texto@.len(),
        {
            let ghost antes = texto@;
            texto.pop();
            assert(texto@ =~= antes.drop_last());
        }
    }
    if texto.len() == 0 {
        borrar(&mut texto);
        return Err(Error::otro("no llego ninguna clave por stdin"));
    }
    let clave = cadena_de(texto.as_slice());
    borrar(&mut texto);
    Ok(clave)
}

// ---------------------------------------------------------------------------
// The frame
// ---------------------------------------------------------------------------

pub open spec fn msg_sin_salto() -> Seq<char> {
    "--stdin espera el largo de la clave en bytes y un salto de linea antes de la clave. No encontre el salto en los primeros 20 bytes."@
}

pub open spec fn msg_no_ascii() -> Seq<char> {
    "la cabecera de --stdin no es texto ASCII"@
}

pub open spec fn msg_no_es_largo(texto: Seq<char>) -> Seq<char> {
    "la cabecera de --stdin dice "@ + citado(texto) + ", que no es un largo en bytes"@
}

pub open spec fn msg_cero() -> Seq<char> {
    "la cabecera de --stdin declara una clave de cero bytes"@
}

pub open spec fn msg_excede(largo: int) -> Seq<char> {
    "la cabecera de --stdin declara "@ + decimal(largo as nat) + " bytes de clave y el tope es 65536"@
}

pub open spec fn msg_cortada(largo: int, detalle: Seq<char>) -> Seq<char> {
    "--stdin prometio "@ + decimal(largo as nat) + " bytes de clave y el stream se corto antes: "@
        + detalle
}

/// What a read that stops at the end of a slice says.
pub open spec fn msg_fin_de_slice() -> Seq<char> {
    "failed to fill whole buffer"@
}

/// Where the first newline of `w` is; `w.len()` when there is none.
pub open spec fn posicion_salto(w: Seq<u8>) -> nat
    decreases w.len(),
{
    if w.len() == 0 {
        0
    } else if w[0] == SALTO {
        0
    } else {
        1 + posicion_salto(w.drop_first())
    }
}

/// How many bytes the header takes from `s`: up to the first newline
/// included, and never more than `CABECERA_MAX` bytes.
pub open spec fn largo_leido_cabecera(s: Seq<u8>) -> int {
    let w = s.take(
        if s.len() < CABECERA_MAX {
            s.len() as int
        } else {
            CABECERA_MAX as int
        },
    );
    if posicion_salto(w) < w.len() {
        posicion_salto(w) + 1int
    } else {
        w.len() as int
    }
}

/// The passphrase length that the header `c` declares, or the message of what is wrong with it.
pub open spec fn largo_marco(c: Seq<u8>) -> Result<int, Seq<char>> {
    if c.len() == 0 || c.last() != SALTO {
        Err(msg_sin_salto())
    } else if !valid_utf8(c.drop_last()) {
        Err(msg_no_ascii())
    } else {
        let texto = decode_utf8(c.drop_last());
        match numero_hasta(texto, usize::MAX as int) {
            None => Err(msg_no_es_largo(texto)),
            Some(n) => if n == 0 {
                Err(msg_cero())
            } else if n > CLAVE_MAX {
                Err(msg_excede(n))
            } else {
                Ok(n)
            },
        }
    }
}

/// The passphrase read from the start of `s`, and how many bytes it took.
pub open spec fn leida(s: Seq<u8>, utf16le: bool, enmarcada: bool) -> Result<
    (Seq<char>, int),
    Seq<char>,
> {
    if enmarcada {
        let h = largo_leido_cabecera(s);
        match largo_marco(s.take(h)) {
            Err(m) => Err(m),
            Ok(n) => if s.len() - h < n {
                Err(msg_cortada(n, msg_fin_de_slice()))
            } else {
                match clave_de(s.subrange(h, h + n), utf16le, true) {
                    Ok(k) => Ok((k, h + n)),
                    Err(m) => Err(m),
                }
            },
        }
    } else {
        match clave_de(s, utf16le, false) {
            Ok(k) => Ok((k, s.len() as int)),
            Err(m) => Err(m),
        }
    }
}

proof fn lema_posicion_salto(w: Seq<u8>, j: int)
    requires
        0 <= j <= w.len(),
        forall|k: int| 0 <= k < j ==> w[k] != SALTO,
        j < w.len() ==> w[j] == SALTO,
    ensures
        posicion_salto(w) == j,
    decreases j,
{
    if j > 0 {
        assert forall|k: int| 0 <= k < j - 1 implies w.drop_first()[k] != SALTO by {
            assert(w.drop_first()[k] == w[k + 1]);
        }
        if j - 1 < w.drop_first().len() {
            assert(w.drop_first()[j - 1] == w[j]);
        }
        lema_posicion_salto(w.drop_first(), j - 1);
    }
}

/// How many bytes of `entrada` the frame header takes: what reading up to a
/// newline, at most `CABECERA_MAX` bytes, consumes.
pub fn largo_de_lectura_de_cabecera(entrada: &[u8]) -> (h: usize)
    ensures
        h == largo_leido_cabecera(entrada@),
        h <= entrada@.len(),
{
    let limite = if entrada.len() < CABECERA_MAX {
        entrada.len()
    } else {
        CABECERA_MAX
    };
    let ghost w = entrada@.take(limite as int);
    let mut j: usize = 0;
    while j < limite && entrada[j] != SALTO
        invariant
            j <= limite <= entrada@.len(),
            w == entrada@.take(limite as int),
            forall|k: int| 0 <= k < j ==> w[k] != SALTO,
        decreases limite - j,
    {
        j = j + 1;
    }
    proof {
        lema_posicion_salto(w, j as int);
    }
    if j < limite {
        j + 1
    } else {
        limite
    }
}

/// The passphrase length that the frame header declares.
///
/// `cabecera` is what was read for it: up to the first newline, included, and
/// at most `CABECERA_MAX` bytes.
pub fn largo_de_cabecera(cabecera: &[u8]) -> (r: Result<usize, Error>)
    ensures
        match largo_marco(cabecera@) {
            Ok(n) => r matches Ok(v) && v == n,
            Err(m) => falla_con(r, m),
        },
{
    let n = cabecera.len();
    if n == 0 || cabecera[n - 1] != SALTO {
        return Err(
            Error::otro(
                "--stdin espera el largo de la clave en bytes y un salto de linea antes de la clave. No encontre el salto en los primeros 20 bytes.",
            ),
        );
    }
    let sin_salto = vstd::slice::slice_subrange(cabecera, 0, n - 1);
    assert(sin_salto@ =~= cabecera@.drop_last());
    let texto = match texto_utf8(sin_salto) {
        Some(t) => t,
        None => {
            return Err(Error::otro("la cabecera de --stdin no es texto ASCII"));
        },
    };
    let cs = caracteres(texto);
    assert(texto@ == decode_utf8(cabecera@.drop_last()));
    let leido = leer_numero(cs.as_slice());
    let largo: usize = match leido {
        Some(v) => {
            if v <= usize::MAX as u64 {
                v as usize
            } else {
                return Err(mensaje_no_es_largo(texto));
            }
        },
        None => {
            return Err(mensaje_no_es_largo(texto));
        },
    };
    assert(numero_hasta(texto@, usize::MAX as int) == Some(largo as int));
    if largo == 0 {
        return Err(Error::otro("la cabecera de --stdin declara una clave de cero bytes"));
    }
    if largo > CLAVE_MAX {
        let mut m = "la cabecera de --stdin declara ".to_owned();
        let cifras = en_decimal(largo as u64);
        m.append(cifras.as_str());
        m.append(" bytes de clave y el tope es 65536");
        return Err(Error::Otro(m));
    }
    Ok(largo)
}

fn mensaje_no_es_largo(texto: &str) -> (e: Error)
    ensures
        e matches Error::Otro(m) && m@ == msg_no_es_largo(texto@),
{
    let mut m = "la cabecera de --stdin dice ".to_owned();
    let q = citar(texto);
    m.append(q.as_str());
    m.append(", que no es un largo en bytes");
    Error::Otro(m)
}

/// The stream ended before the `largo` bytes of passphrase that the header promised.
/// `detalle` is what the failed read said.
pub fn clave_cortada(largo: usize, detalle: &str) -> (e: Error)
    ensures
        e matches Error::Otro(m) && m@ == msg_cortada(largo as int, detalle@),
{
    let mut m = "--stdin prometio ".to_owned();
    let cifras = en_decimal(largo as u64);
    m.append(cifras.as_str());
    m.append(" bytes de clave y el stream se corto antes: ");
    m.append(detalle);
    Error::Otro(m)
}

/// Reads the passphrase from the start of `entrada`: with a frame, the header
/// and exactly the bytes it declares; without one, all of `entrada`.
/// Returns the passphrase and how many bytes of `entrada` it took; what comes
/// after them is the content, untouched.
pub fn leer_clave(entrada: &[u8], utf16le: bool, enmarcada: bool) -> (r: Result<(String, usize), Error>)
    ensures
        match leida(entrada@, utf16le, enmarcada) {
            Ok((k, usados)) => r matches Ok((s, u)) && s@ == k && u == usados,
            Err(m) => falla_con(r, m),
        },
{
    if enmarcada {
        let h = largo_de_lectura_de_cabecera(entrada);
        let cabecera = vstd::slice::slice_subrange(entrada, 0, h);
        assert(cabecera@ =~= entrada@.take(h as int));
        let largo = largo_de_cabecera(cabecera)?;
        if entrada.len() - h < largo {
            return Err(clave_cortada(largo, "failed to fill whole buffer"));
        }
        let crudo = vstd::slice::slice_subrange(entrada, h, h + largo);
        let clave = clave_de_bytes(crudo, utf16le, true)?;
        Ok((clave, h + largo))
    } else {
        let clave = clave_de_bytes(entrada, utf16le, false)?;
        Ok((clave, entrada.len()))
    }
}

// ---------------------------------------------------------------------------
// Laws
// ---------------------------------------------------------------------------

/// A frame around `clave`: its length in ASCII decimal, a newline, and the bytes.
pub open spec fn enmarcar(clave: Seq<u8>) -> Seq<u8> {
    encode_utf8(decimal(clave.len())) + seq![SALTO] + clave
}

/// `10^k`.
pub open spec fn potencia10(k: nat) -> nat
    decreases k,
{
    if k == 0 {
        1
    } else {
        10 * potencia10((k - 1) as nat)
    }
}

proof fn lema_largo_decimal(n: nat, k: nat)
    requires
        1 <= k,
        n < potencia10(k),
    ensures
        decimal(n).len() <= k,
    decreases k,
{
    if n >= 10 {
        assert(k >= 2) by {
            if k == 1 {
                assert(potencia10(1) == 10) by {
                    assert(potencia10(0) == 1);
                }
            }
        }
        assert(n / 10 < potencia10((k - 1) as nat));
        lema_largo_decimal(n / 10, (k - 1) as nat);
    }
}

proof fn lema_cabecera(clave: Seq<u8>, contenido: Seq<u8>)
    requires
        0 < clave.len() <= CLAVE_MAX,
    ensures
        ({
            let s = enmarcar(clave) + contenido;
            let h = largo_leido_cabecera(s);
            &&& h == enmarcar(clave).len() - clave.len()
            &&& largo_marco(s.take(h)) == Ok::<int, Seq<char>>(clave.len() as int)
            &&& s.subrange(h, h + clave.len()) == clave
            &&& s.len() - h >= clave.len()
        }),
{
    let n: int = clave.len() as int;
    let d = decimal(n as nat);
    let e = encode_utf8(d);
    let s = enmarcar(clave) + contenido;
    lema_numero_de_decimal(n as nat);
    assert(is_ascii_chars(d));
    is_ascii_chars_encode_utf8(d);
    assert(potencia10(5) == 100000) by {
        assert(potencia10(0) == 1);
        assert(potencia10(1) == 10);
        assert(potencia10(2) == 100);
        assert(potencia10(3) == 1000);
        assert(potencia10(4) == 10000);
    }
    lema_largo_decimal(n as nat, 5);
    let hl: int = e.len() + 1int;
    let w = s.take(
        if s.len() < CABECERA_MAX {
            s.len() as int
        } else {
            CABECERA_MAX as int
        },
    );
    assert forall|k: int| 0 <= k < e.len() implies w[k] != SALTO by {
        assert(w[k] == e[k]);
        assert(e[k] == d[k] as u8);
    }
    assert(w[e.len() as int] == SALTO);
    lema_posicion_salto(w, e.len() as int);
    assert(s.take(hl) =~= e + seq![SALTO]);
    assert(s.take(hl).drop_last() =~= e);
    encode_utf8_valid_utf8(d);
    encode_utf8_decode_utf8(d);
    assert(s.subrange(hl, hl + n) =~= clave);
}

/// The frame separates passphrase and content: a framed UTF-8 passphrase is
/// read back exactly, trailing newlines and all, and reading stops right
/// where the content starts, whatever the content is.
pub proof fn ley_el_marco_separa_clave_y_contenido(k: Seq<char>, contenido: Seq<u8>)
    requires
        0 < encode_utf8(k).len() <= CLAVE_MAX,
    ensures
        leida(enmarcar(encode_utf8(k)) + contenido, false, true) == Ok::<(Seq<char>, int), Seq<char>>(
            (k, enmarcar(encode_utf8(k)).len() as int),
        ),
{
    lema_cabecera(encode_utf8(k), contenido);
    encode_utf8_valid_utf8(k);
    encode_utf8_decode_utf8(k);
}

/// The same with the passphrase in UTF-16LE, where a unit may hold the byte
/// `0x0A` without being a newline: the frame does not split it.
pub proof fn ley_el_marco_separa_clave_utf16(k: Seq<char>, contenido: Seq<u8>)
    requires
        0 < bytes_le(codificar_utf16(k)).len() <= CLAVE_MAX,
    ensures
        leida(enmarcar(bytes_le(codificar_utf16(k))) + contenido, true, true) == Ok::<
            (Seq<char>, int),
            Seq<char>,
        >((k, enmarcar(bytes_le(codificar_utf16(k))).len() as int)),
{
    let b = bytes_le(codificar_utf16(k));
    lema_cabecera(b, contenido);
    lema_unidades_de_bytes(codificar_utf16(k));
    lema_utf16_ida_y_vuelta(k);
    assert(b.len() % 2 == 0);
}

/// Both decodings derive the same passphrase: a text sent in UTF-8 and the
/// same text sent in UTF-16LE give one passphrase, so an envelope closed one
/// way opens the other.
pub proof fn ley_los_dos_caminos_dan_la_misma_clave(k: Seq<char>)
    ensures
        clave_de(encode_utf8(k), false, true) == clave_de(bytes_le(codificar_utf16(k)), true, true),
        clave_de(encode_utf8(k), false, false) == clave_de(bytes_le(codificar_utf16(k)), true, false),
        k.len() > 0 ==> clave_de(encode_utf8(k), false, true) == Ok::<Seq<char>, Seq<char>>(k),
{
    encode_utf8_valid_utf8(k);
    encode_utf8_decode_utf8(k);
    lema_unidades_de_bytes(codificar_utf16(k));
    lema_utf16_ida_y_vuelta(k);
    assert(bytes_le(codificar_utf16(k)).len() % 2 == 0);
}

/// `s` is made of `\n` and `\r` only.
pub open spec fn solo_saltos(s: Seq<char>) -> bool {
    forall|i: int| 0 <= i < s.len() ==> s[i] == '\n' || s[i] == '\r'
}

proof fn lema_sin_saltos_finales(k: Seq<char>, saltos: Seq<char>)
    requires
        k.len() > 0,
        k.last() != '\n' && k.last() != '\r',
        solo_saltos(saltos),
    ensures
        sin_saltos_finales(k + saltos) == k,
    decreases saltos.len(),
{
    if saltos.len() == 0 {
        assert(k + saltos =~= k);
    } else {
        assert((k + saltos).drop_last() =~= k + saltos.drop_last());
        assert((k + saltos).last() == saltos.last());
        lema_sin_saltos_finales(k, saltos.drop_last());
    }
}

/// Without a frame, the newlines at the end belong to the pipe and not to
/// the passphrase: all of them are dropped, and nothing else is.
pub proof fn ley_sin_marco_se_recortan_los_saltos(k: Seq<char>, saltos: Seq<char>)
    requires
        k.len() > 0,
        k.last() != '\n' && k.last() != '\r',
        solo_saltos(saltos),
    ensures
        clave_de(encode_utf8(k + saltos), false, false) == Ok::<Seq<char>, Seq<char>>(k),
{
    encode_utf8_valid_utf8(k + saltos);
    encode_utf8_decode_utf8(k + saltos);
    lema_sin_saltos_finales(k, saltos);
}

/// Without a frame, the newlines at the end belong to the pipe in UTF-16LE as
/// much as in UTF-8: all of them are dropped, and nothing else is.
pub proof fn ley_sin_marco_se_recortan_los_saltos_utf16(k: Seq<char>, saltos: Seq<char>)
    requires
        k.len() > 0,
        k.last() != '\n' && k.last() != '\r',
        solo_saltos(saltos),
    ensures
        clave_de(bytes_le(codificar_utf16(k + saltos)), true, false) == Ok::<Seq<char>, Seq<char>>(
            k,
        ),
{
    ley_los_dos_caminos_dan_la_misma_clave(k + saltos);
    ley_sin_marco_se_recortan_los_saltos(k, saltos);
}

} // verus!
