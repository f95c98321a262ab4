//! ISO/IEC 7816-4 padding: one `0x80` byte and then zeros, up to the next
//! multiple of the block. Something is always appended, so that padded and
//! unpadded content can be told apart.
//!
//! Removing the padding from a stream only ever holds back the suffix that may
//! still be padding: `0x80` followed by zeros. Everything before it is emitted
//! as soon as it is read.

use vstd::prelude::*;

use crate::error::{falla_con, Error};

verus! {

/// The byte that opens the padding tail.
pub const MARCA_RELLENO: u8 = 0x80;

/// The largest padding block accepted, in bytes (16 MiB). It also bounds what
/// removing the padding holds back in memory.
pub const BLOQUE_MAX: u64 = 16777216;

/// How many bytes a stream is read at a time when the padding is removed.
pub const TROZO_LECTURA: usize = 65536;

// ---------------------------------------------------------------------------
// The model
// ---------------------------------------------------------------------------

/// `n` zero bytes.
pub open spec fn ceros(n: nat) -> Seq<u8> {
    Seq::new(n, |_i: int| 0u8)
}

/// How many bytes of padding close `escritos` bytes of content, with blocks of
/// `bloque` bytes: up to the next multiple, and a whole block when the content
/// already ends on one.
pub open spec fn largo_cola(escritos: int, bloque: int) -> int {
    (escritos / bloque + 1) * bloque - escritos
}

/// The padding tail for `escritos` bytes of content: the marker, then zeros.
pub open spec fn cola(escritos: int, bloque: int) -> Seq<u8> {
    seq![MARCA_RELLENO] + ceros((largo_cola(escritos, bloque) - 1) as nat)
}

/// `datos` padded to blocks of `bloque` bytes.
pub open spec fn acolchado(datos: Seq<u8>, bloque: int) -> Seq<u8> {
    datos + cola(datos.len() as int, bloque)
}

/// How many zero bytes `s` ends with.
pub open spec fn ceros_finales(s: Seq<u8>) -> nat
    decreases s.len(),
{
    if s.len() > 0 && s.last() == 0 {
        ceros_finales(s.drop_last()) + 1
    } else {
        0
    }
}

/// The suffix of `s` that may still be padding: the last `0x80` of `s` together
/// with the zeros after it, when nothing but zeros follows it; empty otherwise.
pub open spec fn sufijo_candidato(s: Seq<u8>) -> Seq<u8> {
    let k = s.len() - ceros_finales(s);
    if k > 0 && s[k - 1] == MARCA_RELLENO {
        s.subrange(k - 1, s.len() as int)
    } else {
        Seq::empty()
    }
}

/// `s` without its padding tail.
pub open spec fn sin_relleno(s: Seq<u8>) -> Seq<u8> {
    s.subrange(0, s.len() - sufijo_candidato(s).len())
}

/// Where the `k`-th read of `TROZO_LECTURA` bytes ends, in a stream of `largo` bytes.
pub open spec fn fin_de_lectura(k: int, largo: int) -> int {
    if k * TROZO_LECTURA < largo {
        k * TROZO_LECTURA
    } else {
        largo
    }
}

/// Reading `s` a chunk at a time, what is held back after some read is longer
/// than any padding can be.
pub open spec fn excede_tope(s: Seq<u8>) -> bool {
    exists|k: int|
        1 <= k && (k - 1) * TROZO_LECTURA < s.len() && #[trigger] sufijo_candidato(
            s.take(fin_de_lectura(k, s.len() as int)),
        ).len() > BLOQUE_MAX
}

/// The message when what is held back outgrows any padding.
pub open spec fn msg_tope() -> Seq<char> {
    "la cola de ceros pasa los 16777216 bytes: ningun acolchado puede medir tanto"@
}

/// The message when the content does not end in padding.
pub open spec fn msg_sin_marca() -> Seq<char> {
    "esto no termina en acolchado: no encontre la marca 0x80"@
}

// ---------------------------------------------------------------------------
// Lemmas on the model
// ---------------------------------------------------------------------------

/// `ceros_finales` counts exactly the run of zeros at the end.
proof fn lema_ceros_finales(s: Seq<u8>)
    ensures
        ceros_finales(s) <= s.len(),
        forall|i: int| s.len() - ceros_finales(s) <= i < s.len() ==> s[i] == 0,
        ceros_finales(s) < s.len() ==> s[s.len() - ceros_finales(s) - 1] != 0,
    decreases s.len(),
{
    if s.len() > 0 && s.last() == 0 {
        let d = s.drop_last();
        lema_ceros_finales(d);
        assert forall|i: int| s.len() - ceros_finales(s) <= i < s.len() implies s[i] == 0 by {
            if i < s.len() - 1 {
                assert(s[i] == d[i]);
            }
        }
        if ceros_finales(s) < s.len() {
            assert(s[s.len() - ceros_finales(s) - 1] == d[d.len() - ceros_finales(d) - 1]);
        }
    }
}

/// A run of zeros that reaches back to a non-zero byte (or to the start) is the
/// whole run of trailing zeros.
proof fn lema_ceros_finales_unico(s: Seq<u8>, j: int)
    requires
        0 <= j <= s.len(),
        forall|i: int| j <= i < s.len() ==> s[i] == 0,
        j > 0 ==> s[j - 1] != 0,
    ensures
        ceros_finales(s) == s.len() - j,
{
    lema_ceros_finales(s);
    let k = s.len() - ceros_finales(s);
    if k < j {
        assert(s[j - 1] == 0);
    } else if k > j {
        assert(s[k - 1] == 0);
    }
}

/// What may still be padding after more bytes arrive depends only on what
/// could be padding before them.
proof fn lema_candidato_incremental(s: Seq<u8>, x: Seq<u8>)
    ensures
        sufijo_candidato(s + x) == sufijo_candidato(sufijo_candidato(s) + x),
{
    let c = sufijo_candidato(s);
    let t1 = s + x;
    let t2 = c + x;
    lema_ceros_finales(x);
    lema_ceros_finales(s);
    let zx = ceros_finales(x);
    if zx < x.len() {
        let j = x.len() - zx;
        lema_ceros_finales_unico(t1, s.len() + j);
        lema_ceros_finales_unico(t2, c.len() + j);
        if t1[s.len() + j - 1] == MARCA_RELLENO {
            assert(sufijo_candidato(t1) =~= x.subrange(j - 1, x.len() as int));
            assert(sufijo_candidato(t2) =~= x.subrange(j - 1, x.len() as int));
        } else {
            assert(sufijo_candidato(t1) =~= Seq::<u8>::empty());
            assert(sufijo_candidato(t2) =~= Seq::<u8>::empty());
        }
    } else {
        let k = s.len() - ceros_finales(s);
        lema_ceros_finales_unico(t1, k);
        if k > 0 && s[k - 1] == MARCA_RELLENO {
            lema_ceros_finales_unico(t2, 1);
            assert(sufijo_candidato(t1) =~= t2);
            assert(sufijo_candidato(t2) =~= t2);
        } else {
            assert(c =~= Seq::<u8>::empty());
            assert(t2 =~= x);
            lema_ceros_finales_unico(t2, 0);
            assert(sufijo_candidato(t1) =~= Seq::<u8>::empty());
        }
    }
}

/// The padding tail is never empty and never longer than a block.
proof fn lema_largo_cola(escritos: int, bloque: int)
    requires
        0 <= escritos,
        0 < bloque,
    ensures
        1 <= largo_cola(escritos, bloque) <= bloque,
        (escritos + largo_cola(escritos, bloque)) % bloque == 0,
        escritos + largo_cola(escritos, bloque) == (escritos / bloque + 1) * bloque,
{
    let q = escritos / bloque;
    let r = escritos % bloque;
    vstd::arithmetic::div_mod::lemma_fundamental_div_mod(escritos, bloque);
    assert((q + 1) * bloque == q * bloque + bloque) by (nonlinear_arith);
    vstd::arithmetic::div_mod::lemma_mod_multiples_basic(q + 1, bloque);
}

// ---------------------------------------------------------------------------
// Laws
// ---------------------------------------------------------------------------

/// Padded content always lands on a multiple of the block, grows by at least
/// one byte and at most one block, keeps the content as its prefix, and the
/// first added byte is the marker.
pub proof fn ley_acolchado_cae_en_el_bloque(datos: Seq<u8>, bloque: int)
    requires
        0 < bloque,
    ensures
        (acolchado(datos, bloque).len() as int) % bloque == 0,
        datos.len() < acolchado(datos, bloque).len() <= datos.len() + bloque,
        acolchado(datos, bloque).take(datos.len() as int) == datos,
        acolchado(datos, bloque)[datos.len() as int] == MARCA_RELLENO,
{
    lema_largo_cola(datos.len() as int, bloque);
    assert(acolchado(datos, bloque).take(datos.len() as int) =~= datos);
}

/// Removing the padding gives back exactly the content that was padded, for
/// every content and every block, also when the content itself ends like a
/// padding tail (`0x80` and zeros) or is made of zeros only.
pub proof fn ley_ida_y_vuelta(datos: Seq<u8>, bloque: int)
    requires
        0 < bloque,
    ensures
        sufijo_candidato(acolchado(datos, bloque)).len() > 0,
        sin_relleno(acolchado(datos, bloque)) == datos,
{
    lema_largo_cola(datos.len() as int, bloque);
    let t = acolchado(datos, bloque);
    lema_ceros_finales_unico(t, datos.len() + 1int);
    assert(sin_relleno(t) =~= datos);
}

/// Some read of `TROZO_LECTURA` bytes that ends inside `datos` holds back more
/// than any padding can be: a `0x80` followed by more than `BLOQUE_MAX` bytes
/// of zeros inside the content itself.
pub open spec fn retiene_de_mas(datos: Seq<u8>) -> bool {
    exists|k: int|
        1 <= k && k * TROZO_LECTURA <= datos.len() && #[trigger] sufijo_candidato(
            datos.take(fin_de_lectura(k, datos.len() as int)),
        ).len() > BLOQUE_MAX
}

/// Removing the padding from what was padded gives the content back, with
/// blocks up to `BLOQUE_MAX`: after every read, what is held back fits, and
/// the padding is found at the end. The one content for which this fails is
/// one that holds, at a read boundary, a `0x80` followed by more zeros than
/// any padding can have; the bound on what is held back refuses it.
pub proof fn ley_desacolchar_devuelve_lo_acolchado(datos: Seq<u8>, bloque: int)
    requires
        0 < bloque <= BLOQUE_MAX,
        !retiene_de_mas(datos),
    ensures
        !excede_tope(acolchado(datos, bloque)),
        sufijo_candidato(acolchado(datos, bloque)).len() > 0,
        sin_relleno(acolchado(datos, bloque)) == datos,
{
    ley_ida_y_vuelta(datos, bloque);
    lema_largo_cola(datos.len() as int, bloque);
    let t = acolchado(datos, bloque);
    let n = datos.len() as int;
    if excede_tope(t) {
        let k = choose|k: int|
            1 <= k && (k - 1) * TROZO_LECTURA < t.len() && #[trigger] sufijo_candidato(
                t.take(fin_de_lectura(k, t.len() as int)),
            ).len() > BLOQUE_MAX;
        let m = fin_de_lectura(k, t.len() as int);
        let q = t.take(m);
        if m <= n {
            assert(m == k * TROZO_LECTURA);
            assert(q =~= datos.take(m));
            assert(fin_de_lectura(k, n) == m);
            assert(sufijo_candidato(datos.take(fin_de_lectura(k, n))).len() > BLOQUE_MAX);
            assert(retiene_de_mas(datos));
        } else {
            assert forall|i: int| n + 1 <= i < q.len() implies q[i] == 0 by {
                assert(q[i] == t[i]);
            }
            assert(q[n] == MARCA_RELLENO);
            lema_ceros_finales_unico(q, n + 1);
            assert(sufijo_candidato(q) =~= q.subrange(n, m));
        }
    }
}

/// The bytes brought by the reads `trozos`, one after the other.
pub open spec fn leido_en(trozos: Seq<Seq<u8>>) -> Seq<u8>
    decreases trozos.len(),
{
    if trozos.len() == 0 {
        Seq::empty()
    } else {
        leido_en(trozos.drop_last()) + trozos.last()
    }
}

/// What `desrellenar` holds back after the reads `trozos`, as its contract
/// says of each of them.
pub open spec fn retenido_tras(trozos: Seq<Seq<u8>>) -> Seq<u8>
    decreases trozos.len(),
{
    if trozos.len() == 0 {
        Seq::empty()
    } else {
        sufijo_candidato(retenido_tras(trozos.drop_last()) + trozos.last())
    }
}

/// What `desrellenar` has written after the reads `trozos`, as its contract
/// says of each of them.
pub open spec fn escrito_tras(trozos: Seq<Seq<u8>>) -> Seq<u8>
    decreases trozos.len(),
{
    if trozos.len() == 0 {
        Seq::empty()
    } else {
        let t = retenido_tras(trozos.drop_last()) + trozos.last();
        escrito_tras(trozos.drop_last()) + t.take(t.len() - sufijo_candidato(t).len())
    }
}

/// Whatever the reads, what is held back after them is what may still be
/// padding of all that was read, and what was written, followed by it, is
/// all that was read.
pub proof fn ley_los_trozos_no_importan(trozos: Seq<Seq<u8>>)
    ensures
        retenido_tras(trozos) == sufijo_candidato(leido_en(trozos)),
        escrito_tras(trozos) + retenido_tras(trozos) == leido_en(trozos),
    decreases trozos.len(),
{
    if trozos.len() == 0 {
        lema_ceros_finales_unico(Seq::<u8>::empty(), 0);
        assert(sufijo_candidato(Seq::<u8>::empty()) =~= Seq::<u8>::empty());
    } else {
        let previos = trozos.drop_last();
        ley_los_trozos_no_importan(previos);
        let x = trozos.last();
        lema_candidato_incremental(leido_en(previos), x);
        let t = retenido_tras(previos) + x;
        lema_ceros_finales(t);
        let c = sufijo_candidato(t);
        assert(c.len() <= t.len());
        assert(c =~= t.subrange(t.len() - c.len(), t.len() as int)) by {
            let k = t.len() - ceros_finales(t);
            if !(k > 0 && t[k - 1] == MARCA_RELLENO) {
                assert(c =~= Seq::<u8>::empty());
            }
        }
        assert(t.take(t.len() - c.len()) + c =~= t);
        assert(escrito_tras(trozos) + retenido_tras(trozos) =~= escrito_tras(previos) + (
        retenido_tras(previos) + x));
        assert(leido_en(trozos) =~= (escrito_tras(previos) + retenido_tras(previos)) + x);
    }
}

proof fn lema_prefijo_leido(trozos: Seq<Seq<u8>>, k: int)
    requires
        0 <= k <= trozos.len(),
    ensures
        leido_en(trozos.take(k)).len() <= leido_en(trozos).len(),
        leido_en(trozos) .take(leido_en(trozos.take(k)).len() as int) == leido_en(trozos.take(k)),
    decreases trozos.len(),
{
    if k == trozos.len() {
        assert(trozos.take(k) =~= trozos);
        assert(leido_en(trozos).take(leido_en(trozos).len() as int) =~= leido_en(trozos));
    } else {
        let previos = trozos.drop_last();
        assert(previos.take(k) =~= trozos.take(k));
        lema_prefijo_leido(previos, k);
        let p = leido_en(trozos.take(k));
        assert(leido_en(trozos).take(p.len() as int) =~= leido_en(previos).take(p.len() as int));
    }
}

/// Padding and then removing the padding read by reads of any size gives the
/// content back: no read holds back more than any padding can be, the
/// padding is there at the end, and what was written is the content. The one
/// content for which this fails holds, where a read ends, a `0x80` followed
/// by more zeros than any padding can have.
pub proof fn ley_desacolchar_a_trozos(datos: Seq<u8>, bloque: int, trozos: Seq<Seq<u8>>)
    requires
        0 < bloque <= BLOQUE_MAX,
        leido_en(trozos) == acolchado(datos, bloque),
        forall|k: int|
            1 <= k <= trozos.len() && #[trigger] leido_en(trozos.take(k)).len() <= datos.len()
                ==> sufijo_candidato(leido_en(trozos.take(k))).len() <= BLOQUE_MAX,
    ensures
        forall|k: int|
            1 <= k <= trozos.len() ==> #[trigger] retenido_tras(trozos.take(k)).len() <= BLOQUE_MAX,
        retenido_tras(trozos).len() > 0,
        escrito_tras(trozos) == datos,
{
    ley_ida_y_vuelta(datos, bloque);
    lema_largo_cola(datos.len() as int, bloque);
    ley_los_trozos_no_importan(trozos);
    let t = acolchado(datos, bloque);
    let n = datos.len() as int;
    assert forall|k: int| 1 <= k <= trozos.len() implies #[trigger] retenido_tras(
        trozos.take(k),
    ).len() <= BLOQUE_MAX by {
        ley_los_trozos_no_importan(trozos.take(k));
        lema_prefijo_leido(trozos, k);
        let q = leido_en(trozos.take(k));
        if q.len() > n {
            let m = q.len() as int;
            assert(q =~= t.take(m));
            assert forall|i: int| n + 1 <= i < q.len() implies q[i] == 0 by {
                assert(q[i] == t[i]);
            }
            assert(q[n] == MARCA_RELLENO);
            lema_ceros_finales_unico(q, n + 1);
            assert(sufijo_candidato(q) =~= q.subrange(n, m));
        }
    }
    lema_ceros_finales(t);
    assert(escrito_tras(trozos) =~= t.take(t.len() - sufijo_candidato(t).len()));
}

/// Only what may still be padding is held back: what is held back after
/// reading `s` is a suffix of `s` that starts with the marker `0x80` and is
/// zeros after it, or nothing. Content with no `0x80` is never held back.
pub proof fn ley_solo_se_retiene_tras_una_marca(s: Seq<u8>)
    ensures
        sufijo_candidato(s).len() <= s.len(),
        sufijo_candidato(s) == s.subrange(s.len() - sufijo_candidato(s).len(), s.len() as int),
        sufijo_candidato(s).len() > 0 ==> s[s.len() - sufijo_candidato(s).len()] == MARCA_RELLENO,
        forall|i: int|
            s.len() - sufijo_candidato(s).len() < i < s.len() ==> #[trigger] s[i] == 0,
        (forall|i: int| 0 <= i < s.len() ==> #[trigger] s[i] != MARCA_RELLENO) ==> sufijo_candidato(
            s,
        ).len() == 0,
{
    lema_ceros_finales(s);
    let k = s.len() - ceros_finales(s);
    if !(k > 0 && s[k - 1] == MARCA_RELLENO) {
        assert(sufijo_candidato(s) =~= Seq::<u8>::empty());
        assert(s.subrange(s.len() as int, s.len() as int) =~= Seq::<u8>::empty());
    }
}

/// Some `0x80` in `datos` is followed by at least `BLOQUE_MAX` zeros: a run
/// longer than what removing the padding may hold back.
pub open spec fn cola_larga(datos: Seq<u8>) -> bool {
    exists|i: int|
        0 <= i && i + BLOQUE_MAX < datos.len() && #[trigger] datos[i] == MARCA_RELLENO && (forall|
            j: int,
        | i < j <= i + BLOQUE_MAX ==> datos[j] == 0)
}

/// Padding any content and removing the padding gives it back, whatever
/// its size and whatever it ends with (all zeros included), read however the
/// reads fall, as long as no `0x80` in it is followed by `BLOQUE_MAX` zeros.
pub proof fn ley_la_vuelta_completa(datos: Seq<u8>, bloque: int)
    requires
        0 < bloque <= BLOQUE_MAX,
        !cola_larga(datos),
    ensures
        !excede_tope(acolchado(datos, bloque)),
        sufijo_candidato(acolchado(datos, bloque)).len() > 0,
        sin_relleno(acolchado(datos, bloque)) == datos,
{
    if retiene_de_mas(datos) {
        let k = choose|k: int|
            1 <= k && k * TROZO_LECTURA <= datos.len() && #[trigger] sufijo_candidato(
                datos.take(fin_de_lectura(k, datos.len() as int)),
            ).len() > BLOQUE_MAX;
        let q = datos.take(fin_de_lectura(k, datos.len() as int));
        ley_solo_se_retiene_tras_una_marca(q);
        let c = sufijo_candidato(q).len();
        let i = q.len() - c;
        assert(q[i] == MARCA_RELLENO);
        assert(datos[i] == MARCA_RELLENO);
        assert forall|j: int| i < j <= i + BLOQUE_MAX implies datos[j] == 0 by {
            assert(q[j] == 0);
        }
        assert(cola_larga(datos));
    }
    ley_desacolchar_devuelve_lo_acolchado(datos, bloque);
}

// ---------------------------------------------------------------------------
// Adding the padding
// ---------------------------------------------------------------------------

/// Keeps count of the content written and, at the end, yields the tail that
/// brings it to the next multiple of the block.
pub struct Rellenador {
    pub bloque: u64,
    pub escritos: u64,
}

impl Rellenador {
    pub fn nuevo(bloque: u64) -> (r: Rellenador)
        ensures
            r.bloque == bloque,
            r.escritos == 0,
    {
        Rellenador { bloque, escritos: 0 }
    }

    /// Counts `n` more bytes of content.
    pub fn anotar(&mut self, n: u64)
        requires
            old(self).escritos + n <= u64::MAX,
        ensures
            final(self).bloque == old(self).bloque,
            final(self).escritos == old(self).escritos + n,
    {
        self.escritos = self.escritos + n;
    }

    /// The padding tail: `0x80` and then zeros up to the next multiple of the
    /// block, a whole block when the content already ends on one.
    pub fn finalizar(self) -> (r: Vec<u8>)
        requires
            self.bloque > 0,
            (self.escritos / self.bloque + 1) * self.bloque <= u64::MAX,
        ensures
            r@ == cola(self.escritos as int, self.bloque as int),
    {
        proof {
            lema_largo_cola(self.escritos as int, self.bloque as int);
        }
        let objetivo = (self.escritos / self.bloque + 1) * self.bloque;
        let faltan = objetivo - self.escritos;
        let mut r: Vec<u8> = Vec::new();
        r.push(MARCA_RELLENO);
        let mut puestos: u64 = 1;
        while puestos < faltan
            invariant
                1 <= puestos <= faltan,
                faltan == largo_cola(self.escritos as int, self.bloque as int),
                r@ == seq![MARCA_RELLENO] + ceros((puestos - 1) as nat),
            decreases faltan - puestos,
        {
            r.push(0);
            puestos = puestos + 1;
            assert(r@ =~= seq![MARCA_RELLENO] + ceros((puestos - 1) as nat));
        }
        r
    }
}

/// `datos` padded to a multiple of `bloque`.
pub fn acolchar(datos: &[u8], bloque: u64) -> (r: Vec<u8>)
    requires
        0 < bloque,
        ((datos@.len() as int) / (bloque as int) + 1) * bloque <= u64::MAX,
    ensures
        r@ == acolchado(datos@, bloque as int),
{
    let mut relleno = Rellenador::nuevo(bloque);
    relleno.anotar(datos.len() as u64);
    let mut cola = relleno.finalizar();
    let mut r = vstd::slice::slice_to_vec(datos);
    r.append(&mut cola);
    r
}

// ---------------------------------------------------------------------------
// Removing the padding
// ---------------------------------------------------------------------------

/// One read of the stream: `trozo` arrives after the bytes held back in
/// `retenido`. Returns what can be emitted now, and keeps back only the suffix
/// that may still be padding.
fn avanzar(retenido: &mut Vec<u8>, trozo: &[u8]) -> (emitir: Vec<u8>)
    ensures
        emitir@ + final(retenido)@ == old(retenido)@ + trozo@,
        final(retenido)@ == sufijo_candidato(old(retenido)@ + trozo@),
{
    let ghost t = old(retenido)@ + trozo@;
    let mut i: usize = 0;
    while i < trozo.len()
        invariant
            i <= trozo.len(),
            retenido@ == old(retenido)@ + trozo@.take(i as int),
        decreases trozo.len() - i,
    {
        retenido.push(trozo[i]);
        i = i + 1;
        assert(retenido@ =~= old(retenido)@ + trozo@.take(i as int));
    }
    assert(retenido@ =~= t);
    let largo = retenido.len();
    let mut j: usize = largo;
    while j > 0 && retenido[j - 1] == 0
        invariant
            j <= largo,
            largo == retenido@.len(),
            retenido@ == t,
            forall|k: int| j <= k < largo ==> t[k] == 0,
        decreases j,
    {
        j = j - 1;
    }
    proof {
        lema_ceros_finales_unico(t, j as int);
    }
    let corte = if j > 0 && retenido[j - 1] == MARCA_RELLENO {
        j - 1
    } else {
        largo
    };
    let cola = retenido.split_off(corte);
    let mut emitir = cola;
    std::mem::swap(retenido, &mut emitir);
    assert(emitir@ + retenido@ =~= t);
    if corte == largo {
        assert(retenido@ =~= sufijo_candidato(t));
    }
    emitir
}

/// After a read: what is held back may not outgrow the largest padding.
fn comprobar_tope(retenido: &Vec<u8>) -> (r: Result<(), Error>)
    ensures
        retenido@.len() <= BLOQUE_MAX ==> r is Ok,
        retenido@.len() > BLOQUE_MAX ==> falla_con(r, msg_tope()),
{
    if retenido.len() as u64 > BLOQUE_MAX {
        Err(Error::otro("la cola de ceros pasa los 16777216 bytes: ningun acolchado puede medir tanto"))
    } else {
        Ok(())
    }
}

/// At the end of the stream: what is held back is the padding, and there must be one.
fn terminar(retenido: &Vec<u8>) -> (r: Result<(), Error>)
    ensures
        retenido@.len() > 0 ==> r is Ok,
        retenido@.len() == 0 ==> falla_con(r, msg_sin_marca()),
{
    if retenido.len() == 0 {
        Err(Error::otro("esto no termina en acolchado: no encontre la marca 0x80"))
    } else {
        Ok(())
    }
}

/// One step of the order `desrellenar` on a stream: `leido` is what the last
/// read brought, empty at the end of the stream. Writes into `destino` what
/// can be written now, and keeps back in `retenido` only what may still be
/// padding.
///
/// After a read, what is held back may not outgrow the largest padding (what
/// could be written is written all the same); at the end, what is held back
/// is the padding, and there must be one.
pub fn desrellenar(retenido: &mut Vec<u8>, leido: &[u8], destino: &mut Vec<u8>) -> (r: Result<
    (),
    Error,
>)
    ensures
        leido@.len() > 0 ==> ({
            let t = old(retenido)@ + leido@;
            &&& final(retenido)@ == sufijo_candidato(t)
            &&& final(destino)@ + final(retenido)@ == old(destino)@ + t
            &&& sufijo_candidato(t).len() <= BLOQUE_MAX ==> r is Ok
            &&& sufijo_candidato(t).len() > BLOQUE_MAX ==> falla_con(r, msg_tope())
        }),
        leido@.len() == 0 ==> ({
            &&& final(retenido)@ == old(retenido)@
            &&& final(destino)@ == old(destino)@
            &&& old(retenido)@.len() > 0 ==> r is Ok
            &&& old(retenido)@.len() == 0 ==> falla_con(r, msg_sin_marca())
        }),
{
    if leido.len() == 0 {
        return terminar(retenido);
    }
    let mut emitir = avanzar(retenido, leido);
    let ghost d = destino@;
    destino.append(&mut emitir);
    assert(destino@ + retenido@ =~= d + (old(retenido)@ + leido@));
    comprobar_tope(retenido)
}

/// After one step, what was written is what came before plus everything
/// read but what is held back.
proof fn lema_paso(
    antes: Seq<u8>,
    salida_antes: Seq<u8>,
    retenido_antes: Seq<u8>,
    trozo: Seq<u8>,
    destino: Seq<u8>,
    retenido: Seq<u8>,
    leido: Seq<u8>,
)
    requires
        salida_antes + retenido_antes + trozo == leido,
        destino + retenido == antes + salida_antes + (retenido_antes + trozo),
        retenido == sufijo_candidato(leido),
    ensures
        antes.len() <= destino.len(),
        destino == antes + destino.subrange(antes.len() as int, destino.len() as int),
        destino.subrange(antes.len() as int, destino.len() as int) + retenido == leido,
        destino.subrange(antes.len() as int, destino.len() as int) == sin_relleno(leido),
{
    let t2 = antes + leido;
    assert(antes + salida_antes + (retenido_antes + trozo) =~= t2);
    lema_ceros_finales(leido);
    assert(retenido.len() <= leido.len());
    assert((destino + retenido).take(destino.len() as int) =~= destino);
    assert forall|i: int| 0 <= i < antes.len() implies destino[i] == antes[i] by {
        assert(destino[i] == t2[i]);
    }
    let salida = destino.subrange(antes.len() as int, destino.len() as int);
    assert(destino =~= antes + salida);
    assert forall|i: int| 0 <= i < leido.len() implies (salida + retenido)[i] == leido[i] by {
        assert((destino + retenido)[antes.len() + i] == t2[antes.len() + i]);
    }
    assert(salida + retenido =~= leido);
    assert(salida =~= sin_relleno(leido));
}

/// The first read that holds back too much is where the stream is refused.
proof fn lema_primer_exceso(s: Seq<u8>, k: int)
    requires
        1 <= k,
        (k - 1) * TROZO_LECTURA < s.len(),
        sufijo_candidato(s.take(fin_de_lectura(k, s.len() as int))).len() > BLOQUE_MAX,
        forall|j: int|
            1 <= j < k ==> #[trigger] sufijo_candidato(
                s.take(fin_de_lectura(j, s.len() as int)),
            ).len() <= BLOQUE_MAX,
    ensures
        excede_tope(s),
        emitido_hasta_el_exceso(s) == sin_relleno(s.take(fin_de_lectura(k, s.len() as int))),
{
    assert(primer_exceso_en(s, k));
    let c = choose|c: int| primer_exceso_en(s, c);
    if c < k {
        assert(sufijo_candidato(s.take(fin_de_lectura(c, s.len() as int))).len() <= BLOQUE_MAX);
    } else if c > k {
        assert(sufijo_candidato(s.take(fin_de_lectura(k, s.len() as int))).len() <= BLOQUE_MAX);
    }
}

/// The `k`-th read of `s` holds back more than any padding can be, and no
/// read before it did.
pub open spec fn primer_exceso_en(s: Seq<u8>, k: int) -> bool {
    &&& 1 <= k
    &&& (k - 1) * TROZO_LECTURA < s.len()
    &&& sufijo_candidato(s.take(fin_de_lectura(k, s.len() as int))).len() > BLOQUE_MAX
    &&& forall|j: int|
        1 <= j < k ==> #[trigger] sufijo_candidato(
            s.take(fin_de_lectura(j, s.len() as int)),
        ).len() <= BLOQUE_MAX
}

/// What has been written out of `s` when the first read that holds back too
/// much is refused: everything read so far but what may still be padding.
pub open spec fn emitido_hasta_el_exceso(s: Seq<u8>) -> Seq<u8> {
    let k = choose|k: int| primer_exceso_en(s, k);
    sin_relleno(s.take(fin_de_lectura(k, s.len() as int)))
}

/// Copies `origen` into `destino` without its padding, read `TROZO_LECTURA`
/// bytes at a time, and returns how many bytes it wrote.
///
/// Fails when what is held back after some read is longer than any padding can
/// be, and otherwise when `origen` does not end in a padding tail. What was
/// written before a failure stays written: on a refused read, everything read
/// until then but what may still be padding; without a padding tail, all of
/// `origen`.
#[verifier::rlimit(80)]
pub fn copiar_sin_relleno(origen: &[u8], destino: &mut Vec<u8>) -> (r: Result<u64, Error>)
    ensures
        excede_tope(origen@) ==> falla_con(r, msg_tope()) && final(destino)@ == old(destino)@
            + emitido_hasta_el_exceso(origen@),
        !excede_tope(origen@) && sufijo_candidato(origen@).len() == 0 ==> falla_con(
            r,
            msg_sin_marca(),
        ) && final(destino)@ == old(destino)@ + origen@,
        !excede_tope(origen@) && sufijo_candidato(origen@).len() > 0 ==> (r matches Ok(n) && n
            == sin_relleno(origen@).len() && final(destino)@ == old(destino)@ + sin_relleno(
            origen@,
        )),
{
    let ghost s = origen@;
    let ghost antes = destino@;
    let antes_len = destino.len();
    let largo = origen.len();
    let mut retenido: Vec<u8> = Vec::new();
    let mut emitidos: usize = 0;
    let ghost mut salida: Seq<u8> = Seq::empty();
    let mut pos: usize = 0;
    let ghost mut k: int = 0;
    while pos < largo
        invariant
            s == origen@,
            largo == s.len(),
            pos <= largo,
            0 <= k,
            pos == fin_de_lectura(k, largo as int),
            antes == old(destino)@,
            destino@ == antes + salida,
            antes_len == antes.len(),
            emitidos == salida.len(),
            salida + retenido@ == s.take(pos as int),
            retenido@ == sufijo_candidato(s.take(pos as int)),
            forall|k2: int|
                1 <= k2 <= k ==> #[trigger] sufijo_candidato(
                    s.take(fin_de_lectura(k2, largo as int)),
                ).len() <= BLOQUE_MAX,
        decreases largo - pos,
    {
        let fin = if largo - pos > TROZO_LECTURA {
            pos + TROZO_LECTURA
        } else {
            largo
        };
        let trozo = vstd::slice::slice_subrange(origen, pos, fin);
        let ghost previo = s.take(pos as int);
        proof {
            assert(s.take(fin as int) =~= previo + trozo@);
            lema_candidato_incremental(previo, trozo@);
        }
        proof {
            k = k + 1;
        }
        let ghost salida_antes = salida;
        let ghost retenido_antes = retenido@;
        assert(salida_antes + retenido_antes + trozo@ =~= s.take(fin as int));
        let paso = desrellenar(&mut retenido, trozo, destino);
        proof {
            lema_paso(antes, salida_antes, retenido_antes, trozo@, destino@, retenido@, s.take(
                fin as int,
            ));
            salida = destino@.subrange(antes.len() as int, destino@.len() as int);
        }
        emitidos = destino.len() - antes_len;
        if let Err(e) = paso {
            proof {
                assert(fin as int == fin_de_lectura(k, largo as int));
                assert((k - 1) * TROZO_LECTURA < s.len());
                lema_primer_exceso(s, k);
                assert(sufijo_candidato(retenido_antes + trozo@).len() > BLOQUE_MAX);
            }
            return Err(e);
        }
        pos = fin;
        proof {
            assert(salida + retenido@ =~= s.take(pos as int));
        }
    }
    proof {
        assert(s.take(largo as int) =~= s);
        if excede_tope(s) {
            let k2 = choose|k2: int|
                1 <= k2 && (k2 - 1) * TROZO_LECTURA < s.len() && #[trigger] sufijo_candidato(
                    s.take(fin_de_lectura(k2, s.len() as int)),
                ).len() > BLOQUE_MAX;
            assert(k2 <= k);
        }
    }
    match desrellenar(&mut retenido, &[], destino) {
        Ok(_) => {},
        Err(e) => {
            assert(retenido@.len() == 0);
            assert(salida =~= s);
            return Err(e);
        },
    }
    assert(salida =~= sin_relleno(s));
    Ok(emitidos as u64)
}

} // verus!
