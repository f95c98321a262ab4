//! The command line: which order, with which options, and which combinations
//! are refused before anything is read.

use vstd::prelude::*;

use crate::error::{falla_con, Error};
use crate::relleno::BLOQUE_MAX;
use crate::texto::{
    cadena_de, caracteres, citado, citar, decimal, empieza, empieza_con, en_decimal,
    en_mayusculas, iguales, leer_numero, mayusculas, numero_hasta, recortado, recortar, termina,
    termina_con,
};

verus! {

// ---------------------------------------------------------------------------
// Orders
// ---------------------------------------------------------------------------

/// Which operation was asked for.
#[derive(Clone, Copy, Debug, PartialEq, Eq, Structural)]
pub enum Orden {
    Cifrar,
    Abrir,
    Generar,
    Rellenar,
    Desrellenar,
}

/// The order that a name on the command line asks for.
pub open spec fn orden_de_nombre(s: Seq<char>) -> Option<Orden> {
    if s == "cifrar"@ {
        Some(Orden::Cifrar)
    } else if s == "abrir"@ {
        Some(Orden::Abrir)
    } else if s == "generar"@ {
        Some(Orden::Generar)
    } else if s == "rellenar"@ {
        Some(Orden::Rellenar)
    } else if s == "desrellenar"@ {
        Some(Orden::Desrellenar)
    } else {
        None
    }
}

/// Whether `s` holds the same characters as the literal `l`.
fn es(s: &[char], l: &str) -> (b: bool)
    ensures
        b == (s@ == l@),
{
    let c = caracteres(l);
    iguales(s, c.as_slice())
}

impl Orden {
    /// The order named `nombre`, if there is one.
    pub fn desde(nombre: &str) -> (r: Option<Orden>)
        ensures
            r == orden_de_nombre(nombre@),
    {
        let n = caracteres(nombre);
        if es(n.as_slice(), "cifrar") {
            Some(Orden::Cifrar)
        } else if es(n.as_slice(), "abrir") {
            Some(Orden::Abrir)
        } else if es(n.as_slice(), "generar") {
            Some(Orden::Generar)
        } else if es(n.as_slice(), "rellenar") {
            Some(Orden::Rellenar)
        } else if es(n.as_slice(), "desrellenar") {
            Some(Orden::Desrellenar)
        } else {
            None
        }
    }

    /// `generar` reads nothing: it makes the identity out of nothing.
    pub fn lee_entrada(self) -> (b: bool)
        ensures
            b == (self != Orden::Generar),
    {
        self != Orden::Generar
    }

    /// Whether the order uses a secret that may come through stdin.
    pub fn tiene_llave(self) -> (b: bool)
        ensures
            b == (self == Orden::Cifrar || self == Orden::Abrir),
    {
        self == Orden::Cifrar || self == Orden::Abrir
    }
}

// ---------------------------------------------------------------------------
// Options
// ---------------------------------------------------------------------------

/// The options of an order.
pub struct Opciones {
    /// `None`: the input arrives on stdin.
    pub entrada: Option<String>,
    /// `None`: the output leaves on stdout.
    pub salida: Option<String>,
    pub utf16le: bool,
    pub forzar: bool,
    /// x25519 public keys to close the envelope to. Empty: passphrase.
    pub para: Vec<String>,
    /// The file with the private x25519 identity. `None`: passphrase.
    pub identidad: Option<String>,
    pub trabajo: Option<u8>,
    pub max_trabajo: Option<u8>,
    pub bloque: Option<u64>,
    pub desrellenar: bool,
}

/// The options as plain values.
#[verifier::ext_equal]
pub struct OpcionesVista {
    pub entrada: Option<Seq<char>>,
    pub salida: Option<Seq<char>>,
    pub utf16le: bool,
    pub forzar: bool,
    pub para: Seq<Seq<char>>,
    pub identidad: Option<Seq<char>>,
    pub trabajo: Option<u8>,
    pub max_trabajo: Option<u8>,
    pub bloque: Option<u64>,
    pub desrellenar: bool,
}

pub open spec fn texto_opcional(s: Option<String>) -> Option<Seq<char>> {
    match s {
        Some(t) => Some(t@),
        None => None,
    }
}

pub open spec fn textos(v: Seq<String>) -> Seq<Seq<char>> {
    v.map_values(|s: String| s@)
}

impl View for Opciones {
    type V = OpcionesVista;

    open spec fn view(&self) -> OpcionesVista {
        OpcionesVista {
            entrada: texto_opcional(self.entrada),
            salida: texto_opcional(self.salida),
            utf16le: self.utf16le,
            forzar: self.forzar,
            para: textos(self.para@),
            identidad: texto_opcional(self.identidad),
            trabajo: self.trabajo,
            max_trabajo: self.max_trabajo,
            bloque: self.bloque,
            desrellenar: self.desrellenar,
        }
    }
}

/// The values that the parsers of `--trabajo`, `--max-trabajo` and `--bloque`
/// accept: what `age` can be handed without panicking, and what padding can use.
pub open spec fn valores_en_rango(o: OpcionesVista) -> bool {
    &&& (o.trabajo matches Some(n) ==> 1 <= n <= 63)
    &&& (o.max_trabajo matches Some(n) ==> 1 <= n <= 63)
    &&& (o.bloque matches Some(b) ==> 1 <= b <= BLOQUE_MAX)
}

/// How the input is named in a message: its path, or standard input.
pub open spec fn nombre_de_entrada(o: OpcionesVista) -> Seq<char> {
    match o.entrada {
        Some(ruta) => ruta,
        None => "la entrada estandar"@,
    }
}

impl Opciones {
    /// How to name the input inside an error message.
    pub fn nombre_entrada(&self) -> (r: String)
        ensures
            r@ == nombre_de_entrada(self@),
    {
        match &self.entrada {
            Some(ruta) => ruta.clone(),
            None => "la entrada estandar".to_owned(),
        }
    }
}

/// The shape the command line must have with these stream flags.
pub open spec fn forma_de(orden: Orden, por_stdin: bool, por_stdout: bool) -> Seq<char> {
    "sobre <orden>"@ + (if orden != Orden::Generar && !por_stdin {
        " <entrada>"@
    } else {
        Seq::empty()
    }) + (if !por_stdout {
        " <salida>"@
    } else {
        Seq::empty()
    })
}

/// The shape the command line must have with these stream flags.
pub fn forma(orden: Orden, por_stdin: bool, por_stdout: bool) -> (s: String)
    ensures
        s@ == forma_de(orden, por_stdin, por_stdout),
{
    let mut s = "sobre <orden>".to_owned();
    let ghost a = s@;
    if orden.lee_entrada() && !por_stdin {
        s.append(" <entrada>");
    }
    let ghost b = s@;
    if !por_stdout {
        s.append(" <salida>");
    }
    proof {
        let e = if orden != Orden::Generar && !por_stdin {
            " <entrada>"@
        } else {
            Seq::<char>::empty()
        };
        let f = if !por_stdout {
            " <salida>"@
        } else {
            Seq::<char>::empty()
        };
        assert(b =~= a + e);
        assert(s@ =~= a + e + f);
    }
    s
}

// ---------------------------------------------------------------------------
// Sizes and work factors
// ---------------------------------------------------------------------------

/// `2^30`, `2^20` and `2^10`.
pub const GIB: u64 = 1073741824;
pub const MIB: u64 = 1048576;
pub const KIB: u64 = 1024;

/// The digits and the factor of a size: the first of the suffixes `GIB`,
/// `GB`, `G`, `MIB`, `MB`, `M`, `KIB`, `KB`, `K` that ends it, or none.
pub open spec fn partir_sufijo(a: Seq<char>) -> (Seq<char>, int) {
    if termina_con(a, "GIB"@) {
        (a.take(a.len() - 3), GIB as int)
    } else if termina_con(a, "GB"@) {
        (a.take(a.len() - 2), GIB as int)
    } else if termina_con(a, "G"@) {
        (a.take(a.len() - 1), GIB as int)
    } else if termina_con(a, "MIB"@) {
        (a.take(a.len() - 3), MIB as int)
    } else if termina_con(a, "MB"@) {
        (a.take(a.len() - 2), MIB as int)
    } else if termina_con(a, "M"@) {
        (a.take(a.len() - 1), MIB as int)
    } else if termina_con(a, "KIB"@) {
        (a.take(a.len() - 3), KIB as int)
    } else if termina_con(a, "KB"@) {
        (a.take(a.len() - 2), KIB as int)
    } else if termina_con(a, "K"@) {
        (a.take(a.len() - 1), KIB as int)
    } else {
        (a, 1)
    }
}

pub open spec fn msg_tamano_ilegible(texto: Seq<char>) -> Seq<char> {
    "no entiendo el tamano "@ + citado(texto) + ". Probá 4096, 4K, 1M."@
}

pub open spec fn msg_tamano_64(texto: Seq<char>) -> Seq<char> {
    "el tamano "@ + citado(texto) + " no entra en 64 bits"@
}

pub open spec fn msg_bloque_cero() -> Seq<char> {
    "un bloque de cero bytes no acolcha nada"@
}

pub open spec fn msg_bloque_grande(bytes: int) -> Seq<char> {
    "el bloque mas grande que acepto es 16777216 bytes (16M), y pediste "@ + decimal(bytes as nat)
}

/// The size that `texto` writes, in bytes, or the message of why it is refused.
pub open spec fn tamano(texto: Seq<char>) -> Result<int, Seq<char>> {
    let arriba = mayusculas(recortar(texto));
    let (digitos, factor) = partir_sufijo(arriba);
    match numero_hasta(recortar(digitos), u64::MAX as int) {
        None => Err(msg_tamano_ilegible(texto)),
        Some(n) => if n * factor > u64::MAX {
            Err(msg_tamano_64(texto))
        } else if n * factor == 0 {
            Err(msg_bloque_cero())
        } else if n * factor > BLOQUE_MAX {
            Err(msg_bloque_grande(n * factor))
        } else {
            Ok(n * factor)
        },
    }
}

/// `a` followed by `b`.
pub fn unir(a: &str, b: &str) -> (r: String)
    ensures
        r@ == a@ + b@,
{
    let mut r = a.to_owned();
    r.append(b);
    r
}

/// `a`, `b` and `c`, one after the other.
pub fn unir3(a: &str, b: &str, c: &str) -> (r: String)
    ensures
        r@ == a@ + b@ + c@,
{
    let mut r = a.to_owned();
    r.append(b);
    r.append(c);
    r
}

/// Which suffix ends `a`, as `partir_sufijo` says: how many characters it
/// takes and the factor it stands for.
fn sufijo(a: &[char]) -> (r: (usize, u64))
    ensures
        r.0 <= a@.len(),
        partir_sufijo(a@) == (a@.take(a@.len() - r.0), r.1 as int),
{
    let gib = caracteres("GIB");
    let gb = caracteres("GB");
    let g = caracteres("G");
    let mib = caracteres("MIB");
    let mb = caracteres("MB");
    let m = caracteres("M");
    let kib = caracteres("KIB");
    let kb = caracteres("KB");
    let k = caracteres("K");
    let r = if termina(a, gib.as_slice()) {
        (3, GIB)
    } else if termina(a, gb.as_slice()) {
        (2, GIB)
    } else if termina(a, g.as_slice()) {
        (1, GIB)
    } else if termina(a, mib.as_slice()) {
        (3, MIB)
    } else if termina(a, mb.as_slice()) {
        (2, MIB)
    } else if termina(a, m.as_slice()) {
        (1, MIB)
    } else if termina(a, kib.as_slice()) {
        (3, KIB)
    } else if termina(a, kb.as_slice()) {
        (2, KIB)
    } else if termina(a, k.as_slice()) {
        (1, KIB)
    } else {
        (0, 1)
    };
    proof {
        reveal_strlit("GIB");
        reveal_strlit("GB");
        reveal_strlit("G");
        reveal_strlit("MIB");
        reveal_strlit("MB");
        reveal_strlit("M");
        reveal_strlit("KIB");
        reveal_strlit("KB");
        reveal_strlit("K");
        if r.0 == 0 {
            assert(a@.take(a@.len() as int) =~= a@);
        }
    }
    r
}

/// Reads a padding block size: `4096`, `4K`, `1M`, `16MiB`, in bytes.
pub fn parsear_tamano(texto: &str) -> (r: Result<u64, Error>)
    ensures
        match tamano(texto@) {
            Ok(n) => r matches Ok(v) && v == n,
            Err(m) => falla_con(r, m),
        },
        r matches Ok(v) ==> 1 <= v <= BLOQUE_MAX,
{
    let cs = caracteres(texto);
    let recortados = recortado(cs.as_slice());
    let arriba = en_mayusculas(recortados.as_slice());
    let (quitar, factor) = sufijo(arriba.as_slice());
    let digitos = vstd::slice::slice_subrange(arriba.as_slice(), 0, arriba.len() - quitar);
    assert(digitos@ =~= arriba@.take(arriba@.len() - quitar));
    let limpios = recortado(digitos);
    let n = match leer_numero(limpios.as_slice()) {
        Some(n) => n,
        None => {
            let q = citar(texto);
            return Err(Error::Otro(unir3("no entiendo el tamano ", q.as_str(), ". Probá 4096, 4K, 1M.")));
        },
    };
    let bytes = match n.checked_mul(factor) {
        Some(b) => b,
        None => {
            let q = citar(texto);
            return Err(Error::Otro(unir3("el tamano ", q.as_str(), " no entra en 64 bits")));
        },
    };
    if bytes == 0 {
        return Err(Error::otro("un bloque de cero bytes no acolcha nada"));
    }
    if bytes > BLOQUE_MAX {
        let cifras = en_decimal(bytes);
        return Err(
            Error::Otro(
                unir(
                    "el bloque mas grande que acepto es 16777216 bytes (16M), y pediste ",
                    cifras.as_str(),
                ),
            ),
        );
    }
    Ok(bytes)
}

pub open spec fn msg_trabajo_ilegible(texto: Seq<char>) -> Seq<char> {
    "el factor de trabajo "@ + citado(texto) + " no es un numero de 1 a 63"@
}

pub open spec fn msg_trabajo_rango(n: int) -> Seq<char> {
    "el factor de trabajo va de 1 a 63, y pediste "@ + decimal(n as nat)
}

/// The scrypt work factor that `texto` writes, or the message of why it is refused.
pub open spec fn factor_de_trabajo(texto: Seq<char>) -> Result<int, Seq<char>> {
    match numero_hasta(recortar(texto), 255) {
        None => Err(msg_trabajo_ilegible(texto)),
        Some(n) => if n == 0 || n >= 64 {
            Err(msg_trabajo_rango(n))
        } else {
            Ok(n)
        },
    }
}

/// Reads the scrypt work factor, an exponent: the cost is `2^n`.
///
/// `age` panics on a factor outside `0 < n < 64`; here that is a message.
pub fn parsear_trabajo(texto: &str) -> (r: Result<u8, Error>)
    ensures
        match factor_de_trabajo(texto@) {
            Ok(n) => r matches Ok(v) && v == n,
            Err(m) => falla_con(r, m),
        },
        r matches Ok(v) ==> 1 <= v <= 63,
{
    let cs = caracteres(texto);
    let limpios = recortado(cs.as_slice());
    let n: u8 = match leer_numero(limpios.as_slice()) {
        Some(v) => {
            if v <= 255 {
                v as u8
            } else {
                let q = citar(texto);
                return Err(Error::Otro(unir3("el factor de trabajo ", q.as_str(), " no es un numero de 1 a 63")));
            }
        },
        None => {
            let q = citar(texto);
            return Err(Error::Otro(unir3("el factor de trabajo ", q.as_str(), " no es un numero de 1 a 63")));
        },
    };
    if n == 0 || n >= 64 {
        let cifras = en_decimal(n as u64);
        return Err(Error::Otro(unir("el factor de trabajo va de 1 a 63, y pediste ", cifras.as_str())));
    }
    Ok(n)
}

// ---------------------------------------------------------------------------
// Combinations that mean nothing
// ---------------------------------------------------------------------------

/// Why the options do not go with the order, when they do not. A flag that an
/// order would ignore is refused rather than ignored: whoever wrote it
/// believes it did something.
pub open spec fn motivo_invalido(orden: Orden, o: OpcionesVista, por_stdin: bool) -> Option<Seq<char>> {
    if o.para.len() > 0 && o.identidad is Some {
        Some("--para cierra y --identidad abre. No van juntos."@)
    } else if o.para.len() > 0 && orden != Orden::Cifrar {
        Some("--para es de cifrar: dice a nombre de quien se cierra el sobre."@)
    } else if o.identidad is Some && orden != Orden::Abrir {
        Some("--identidad es de abrir: dice con que se abre el sobre."@)
    } else if o.trabajo is Some && orden != Orden::Cifrar {
        Some("--trabajo es de cifrar."@)
    } else if o.trabajo is Some && o.para.len() > 0 {
        Some("--trabajo es el costo de scrypt, y --para no usa scrypt."@)
    } else if o.max_trabajo is Some && orden != Orden::Abrir {
        Some("--max-trabajo es de abrir."@)
    } else if o.max_trabajo is Some && o.identidad is Some {
        Some("--max-trabajo es el tope de scrypt, y --identidad no usa scrypt."@)
    } else if orden == Orden::Rellenar && o.bloque is None {
        Some("rellenar necesita --bloque <tamano>. Sin el no sabe hasta donde."@)
    } else if orden != Orden::Cifrar && orden != Orden::Rellenar && o.bloque is Some {
        Some("--bloque acolcha antes de cerrar: va en cifrar o en rellenar."@)
    } else if o.desrellenar && orden != Orden::Abrir {
        Some("--desrellenar es de abrir. Suelto, la orden es `sobre desrellenar`."@)
    } else if o.utf16le && !(orden == Orden::Cifrar || orden == Orden::Abrir) {
        Some("--utf16le habla de la clave, y esa orden no usa clave."@)
    } else if por_stdin && orden == Orden::Generar {
        Some("generar no lee nada: --stdin no tiene sentido ahi."@)
    } else {
        None
    }
}

/// Refuses the combinations of order and options that mean nothing.
pub fn validar(orden: Orden, o: &Opciones, por_stdin: bool) -> (r: Result<(), Error>)
    ensures
        match motivo_invalido(orden, o@, por_stdin) {
            Some(m) => falla_con(r, m),
            None => r is Ok,
        },
{
    let hay_para = o.para.len() > 0;
    let hay_identidad = o.identidad.is_some();
    assert(hay_para == (o@.para.len() > 0));
    if hay_para && hay_identidad {
        return Err(Error::otro("--para cierra y --identidad abre. No van juntos."));
    }
    if hay_para && orden != Orden::Cifrar {
        return Err(Error::otro("--para es de cifrar: dice a nombre de quien se cierra el sobre."));
    }
    if hay_identidad && orden != Orden::Abrir {
        return Err(Error::otro("--identidad es de abrir: dice con que se abre el sobre."));
    }
    if o.trabajo.is_some() {
        if orden != Orden::Cifrar {
            return Err(Error::otro("--trabajo es de cifrar."));
        }
        if hay_para {
            return Err(Error::otro("--trabajo es el costo de scrypt, y --para no usa scrypt."));
        }
    }
    if o.max_trabajo.is_some() {
        if orden != Orden::Abrir {
            return Err(Error::otro("--max-trabajo es de abrir."));
        }
        if hay_identidad {
            return Err(
                Error::otro("--max-trabajo es el tope de scrypt, y --identidad no usa scrypt."),
            );
        }
    }
    if orden == Orden::Rellenar && o.bloque.is_none() {
        return Err(Error::otro("rellenar necesita --bloque <tamano>. Sin el no sabe hasta donde."));
    }
    if orden != Orden::Cifrar && orden != Orden::Rellenar && o.bloque.is_some() {
        return Err(Error::otro("--bloque acolcha antes de cerrar: va en cifrar o en rellenar."));
    }
    if o.desrellenar && orden != Orden::Abrir {
        return Err(
            Error::otro("--desrellenar es de abrir. Suelto, la orden es `sobre desrellenar`."),
        );
    }
    if o.utf16le && !orden.tiene_llave() {
        return Err(Error::otro("--utf16le habla de la clave, y esa orden no usa clave."));
    }
    if por_stdin && !orden.lee_entrada() {
        return Err(Error::otro("generar no lee nada: --stdin no tiene sentido ahi."));
    }
    Ok(())
}

// ---------------------------------------------------------------------------
// Reading the command line
// ---------------------------------------------------------------------------

/// What to do after reading the command line.
pub enum Accion {
    Ejecutar(Orden, Opciones),
    Ayuda,
    Version,
}

/// `Accion` as plain values.
#[verifier::ext_equal]
pub enum AccionVista {
    Ejecutar(Orden, OpcionesVista),
    Ayuda,
    Version,
}

impl View for Accion {
    type V = AccionVista;

    open spec fn view(&self) -> AccionVista {
        match self {
            Accion::Ejecutar(orden, o) => AccionVista::Ejecutar(*orden, o@),
            Accion::Ayuda => AccionVista::Ayuda,
            Accion::Version => AccionVista::Version,
        }
    }
}

/// What has been read of the command line so far.
#[verifier::ext_equal]
pub struct Lectura {
    pub sueltos: Seq<Seq<char>>,
    pub utf16le: bool,
    pub forzar: bool,
    pub por_stdin: bool,
    pub por_stdout: bool,
    pub para: Seq<Seq<char>>,
    pub identidad: Option<Seq<char>>,
    pub trabajo: Option<u8>,
    pub max_trabajo: Option<u8>,
    pub bloque: Option<u64>,
    pub desrellenar: bool,
}

/// Where reading the arguments ended.
pub enum Recorrido {
    Listo(Lectura),
    Ayuda,
    Version,
    Falla(Seq<char>),
}

pub open spec fn lectura_inicial() -> Lectura {
    Lectura {
        sueltos: Seq::empty(),
        utf16le: false,
        forzar: false,
        por_stdin: false,
        por_stdout: false,
        para: Seq::empty(),
        identidad: None,
        trabajo: None,
        max_trabajo: None,
        bloque: None,
        desrellenar: false,
    }
}

/// Where the first `c` of `a` is; `a.len()` when there is none.
pub open spec fn posicion_de(a: Seq<char>, c: char) -> nat
    decreases a.len(),
{
    if a.len() == 0 {
        0
    } else if a[0] == c {
        0
    } else {
        1 + posicion_de(a.drop_first(), c)
    }
}

/// `--flag=value` and `--flag value` are the same thing: the name of an
/// argument, and the value stuck to it, if any.
pub open spec fn nombre_y_pegado(a: Seq<char>) -> (Seq<char>, Option<Seq<char>>) {
    let i = posicion_de(a, '=');
    if i < a.len() && empieza_con(a.take(i as int), "--"@) {
        (a.take(i as int), Some(a.skip(i + 1int)))
    } else {
        (a, None)
    }
}

pub open spec fn msg_falta_valor(nombre: Seq<char>) -> Seq<char> {
    "a "@ + citado(nombre) + " le falta el valor"@
}

pub open spec fn msg_clave_por_argumento() -> Seq<char> {
    "la clave no se pasa por argumento, nunca. Mandala por stdin: los argumentos de un proceso los puede leer cualquier otro proceso. (Un destinatario x25519 si va por argumento: es publico. Ver --para.)"@
}

pub open spec fn msg_opcion(nombre: Seq<char>) -> Seq<char> {
    "no conozco la opcion "@ + citado(nombre)
}

pub open spec fn msg_orden(nombre: Seq<char>) -> Seq<char> {
    "no conozco la orden "@ + citado(nombre) + ". Probá con --help"@
}

pub open spec fn msg_cantidad(forma: Seq<char>, n: int, esperados: int) -> Seq<char> {
    "esperaba: "@ + forma + ". Me pasaste "@ + decimal(n as nat) + " cosa(s) y no "@ + decimal(
        esperados as nat,
    ) + "."@
}

/// The flags that take a value.
pub open spec fn lleva_valor(nombre: Seq<char>) -> bool {
    nombre == "--para"@ || nombre == "--identidad"@ || nombre == "--trabajo"@ || nombre
        == "--max-trabajo"@ || nombre == "--bloque"@
}

/// A flag that takes a value, with its value.
pub open spec fn con_valor(nombre: Seq<char>, valor: Seq<char>, e: Lectura) -> Result<Lectura, Seq<char>> {
    if nombre == "--para"@ {
        Ok(Lectura { para: e.para.push(valor), ..e })
    } else if nombre == "--identidad"@ {
        Ok(Lectura { identidad: Some(valor), ..e })
    } else if nombre == "--trabajo"@ {
        match factor_de_trabajo(valor) {
            Ok(n) => Ok(Lectura { trabajo: Some(n as u8), ..e }),
            Err(m) => Err(m),
        }
    } else if nombre == "--max-trabajo"@ {
        match factor_de_trabajo(valor) {
            Ok(n) => Ok(Lectura { max_trabajo: Some(n as u8), ..e }),
            Err(m) => Err(m),
        }
    } else {
        match tamano(valor) {
            Ok(b) => Ok(Lectura { bloque: Some(b as u64), ..e }),
            Err(m) => Err(m),
        }
    }
}

/// Reads `args` one after the other, starting from `e`. A secret passed as an
/// argument is refused outright, and so is any unknown option.
pub open spec fn recorrer(args: Seq<Seq<char>>, e: Lectura) -> Recorrido
    decreases args.len(),
{
    if args.len() == 0 {
        Recorrido::Listo(e)
    } else {
        let a = args[0];
        let resto = args.drop_first();
        let nombre = nombre_y_pegado(a).0;
        let pegado = nombre_y_pegado(a).1;
        if nombre == "-h"@ || nombre == "--help"@ {
            Recorrido::Ayuda
        } else if nombre == "-V"@ || nombre == "--version"@ {
            Recorrido::Version
        } else if nombre == "--utf16le"@ {
            recorrer(resto, Lectura { utf16le: true, ..e })
        } else if nombre == "--forzar"@ {
            recorrer(resto, Lectura { forzar: true, ..e })
        } else if nombre == "--stdin"@ {
            recorrer(resto, Lectura { por_stdin: true, ..e })
        } else if nombre == "--stdout"@ {
            recorrer(resto, Lectura { por_stdout: true, ..e })
        } else if nombre == "--desrellenar"@ {
            recorrer(resto, Lectura { desrellenar: true, ..e })
        } else if lleva_valor(nombre) {
            if pegado is None && resto.len() == 0 {
                Recorrido::Falla(msg_falta_valor(nombre))
            } else {
                let valor = match pegado {
                    Some(v) => v,
                    None => resto[0],
                };
                let siguiente = if pegado is Some {
                    resto
                } else {
                    resto.drop_first()
                };
                match con_valor(nombre, valor, e) {
                    Ok(e2) => recorrer(siguiente, e2),
                    Err(m) => Recorrido::Falla(m),
                }
            }
        } else if empieza_con(nombre, "-p"@) || empieza_con(nombre, "--clave"@) || empieza_con(
            nombre,
            "--password"@,
        ) {
            Recorrido::Falla(msg_clave_por_argumento())
        } else if empieza_con(nombre, "-"@) {
            Recorrido::Falla(msg_opcion(nombre))
        } else {
            recorrer(resto, Lectura { sueltos: e.sueltos.push(a), ..e })
        }
    }
}

/// How many positional arguments an order takes: the order itself, the input
/// unless it comes on stdin (and `generar` has none), the output unless it
/// leaves on stdout.
pub open spec fn esperados_de(orden: Orden, por_stdin: bool, por_stdout: bool) -> int {
    1 + (if orden != Orden::Generar && !por_stdin {
        1int
    } else {
        0
    }) + (if !por_stdout {
        1int
    } else {
        0
    })
}

/// What the command line `args` (without the program name) asks for, or the
/// message of why it is refused.
pub open spec fn accion_de(args: Seq<Seq<char>>) -> Result<AccionVista, Seq<char>> {
    match recorrer(args, lectura_inicial()) {
        Recorrido::Ayuda => Ok(AccionVista::Ayuda),
        Recorrido::Version => Ok(AccionVista::Version),
        Recorrido::Falla(m) => Err(m),
        Recorrido::Listo(e) => accion_de_lectura(e),
    }
}

/// What a finished reading asks for: no positional argument at all means help.
pub open spec fn accion_de_lectura(e: Lectura) -> Result<AccionVista, Seq<char>> {
    if e.sueltos.len() == 0 {
            Ok(AccionVista::Ayuda)
        } else {
            match orden_de_nombre(e.sueltos[0]) {
                None => Err(msg_orden(e.sueltos[0])),
                Some(orden) => {
                    let esperados = esperados_de(orden, e.por_stdin, e.por_stdout);
                    if e.sueltos.len() != esperados {
                        Err(
                            msg_cantidad(
                                forma_de(orden, e.por_stdin, e.por_stdout),
                                e.sueltos.len() as int,
                                esperados,
                            ),
                        )
                    } else {
                        let o = OpcionesVista {
                            entrada: if orden != Orden::Generar && !e.por_stdin {
                                Some(e.sueltos[1])
                            } else {
                                None
                            },
                            salida: if e.por_stdout {
                                None
                            } else {
                                Some(e.sueltos[esperados - 1])
                            },
                            utf16le: e.utf16le,
                            forzar: e.forzar,
                            para: e.para,
                            identidad: e.identidad,
                            trabajo: e.trabajo,
                            max_trabajo: e.max_trabajo,
                            bloque: e.bloque,
                            desrellenar: e.desrellenar,
                        };
                        match motivo_invalido(orden, o, e.por_stdin) {
                            Some(m) => Err(m),
                            None => Ok(AccionVista::Ejecutar(orden, o)),
                        }
                    }
                },
            }
        }
}

pub open spec fn textos_opcionales(v: Option<Vec<char>>) -> Option<Seq<char>> {
    match v {
        Some(t) => Some(t@),
        None => None,
    }
}

/// Splits `--flag=value` into its name and its value.
fn partir(a: &[char]) -> (r: (Vec<char>, Option<Vec<char>>))
    ensures
        r.0@ == nombre_y_pegado(a@).0,
        textos_opcionales(r.1) == nombre_y_pegado(a@).1,
{
    let n = a.len();
    let mut i: usize = 0;
    while i < n && a[i] != '='
        invariant
            i <= n == a@.len(),
            forall|k: int| 0 <= k < i ==> a@[k] != '=',
        decreases n - i,
    {
        i = i + 1;
    }
    proof {
        lema_posicion_de(a@, '=', i as int);
    }
    let antes = vstd::slice::slice_subrange(a, 0, i);
    assert(antes@ =~= a@.take(i as int));
    let guiones = caracteres("--");
    if i < n && empieza(antes, guiones.as_slice()) {
        let despues = vstd::slice::slice_subrange(a, i + 1, n);
        assert(despues@ =~= a@.skip(i + 1));
        (vstd::slice::slice_to_vec(antes), Some(vstd::slice::slice_to_vec(despues)))
    } else {
        (vstd::slice::slice_to_vec(a), None)
    }
}

pub(crate) proof fn lema_posicion_de(a: Seq<char>, c: char, j: int)
    requires
        0 <= j <= a.len(),
        forall|k: int| 0 <= k < j ==> a[k] != c,
        j < a.len() ==> a[j] == c,
    ensures
        posicion_de(a, c) == j,
    decreases j,
{
    if j > 0 {
        assert forall|k: int| 0 <= k < j - 1 implies a.drop_first()[k] != c by {
            assert(a.drop_first()[k] == a[k + 1]);
        }
        if j - 1 < a.drop_first().len() {
            assert(a.drop_first()[j - 1] == a[j]);
        }
        lema_posicion_de(a.drop_first(), c, j - 1);
    }
}

/// What has been read of the command line so far.
pub struct Lector {
    pub sueltos: Vec<String>,
    pub utf16le: bool,
    pub forzar: bool,
    pub por_stdin: bool,
    pub por_stdout: bool,
    pub para: Vec<String>,
    pub identidad: Option<String>,
    pub trabajo: Option<u8>,
    pub max_trabajo: Option<u8>,
    pub bloque: Option<u64>,
    pub desrellenar: bool,
}

impl View for Lector {
    type V = Lectura;

    open spec fn view(&self) -> Lectura {
        Lectura {
            sueltos: textos(self.sueltos@),
            utf16le: self.utf16le,
            forzar: self.forzar,
            por_stdin: self.por_stdin,
            por_stdout: self.por_stdout,
            para: textos(self.para@),
            identidad: texto_opcional(self.identidad),
            trabajo: self.trabajo,
            max_trabajo: self.max_trabajo,
            bloque: self.bloque,
            desrellenar: self.desrellenar,
        }
    }
}

/// The values read so far are in the ranges their parsers accept.
pub open spec fn lectura_en_rango(e: Lectura) -> bool {
    &&& (e.trabajo matches Some(t) ==> 1 <= t <= 63)
    &&& (e.max_trabajo matches Some(t) ==> 1 <= t <= 63)
    &&& (e.bloque matches Some(b) ==> 1 <= b <= BLOQUE_MAX)
}

/// After one argument: go on from argument `i`, or stop.
pub enum Flujo {
    Sigue(usize),
    Ayuda,
    Version,
}

/// A message made of `a`, `s` between quotes, and `b`.
fn con_cita(a: &str, s: &[char], b: &str) -> (r: String)
    ensures
        r@ == a@ + citado(s@) + b@,
{
    let t = cadena_de(s);
    let q = citar(t.as_str());
    unir3(a, q.as_str(), b)
}

/// Whether `nombre` is one of the flags that take a value.
fn es_de_valor(nombre: &[char]) -> (b: bool)
    ensures
        b == lleva_valor(nombre@),
{
    es(nombre, "--para") || es(nombre, "--identidad") || es(nombre, "--trabajo") || es(
        nombre,
        "--max-trabajo",
    ) || es(nombre, "--bloque")
}

impl Lector {
    pub fn nuevo() -> (l: Lector)
        ensures
            l@ == lectura_inicial(),
    {
        let l = Lector {
            sueltos: Vec::new(),
            utf16le: false,
            forzar: false,
            por_stdin: false,
            por_stdout: false,
            para: Vec::new(),
            identidad: None,
            trabajo: None,
            max_trabajo: None,
            bloque: None,
            desrellenar: false,
        };
        assert(l@ =~= lectura_inicial());
        l
    }

    /// Takes the value of the flag `nombre`.
    fn tomar_valor(&mut self, nombre: &[char], valor: String) -> (r: Result<(), Error>)
        requires
            lleva_valor(nombre@),
            lectura_en_rango(old(self)@),
        ensures
            match con_valor(nombre@, valor@, old(self)@) {
                Ok(e) => r is Ok && final(self)@ == e,
                Err(m) => falla_con(r, m),
            },
            lectura_en_rango(final(self)@),
    {
        let ghost e = self@;
        if es(nombre, "--para") {
            self.para.push(valor);
            assert(textos(self.para@) =~= e.para.push(valor@));
            assert(self@ =~= Lectura { para: e.para.push(valor@), ..e });
        } else if es(nombre, "--identidad") {
            self.identidad = Some(valor);
            assert(self@ =~= Lectura { identidad: Some(valor@), ..e });
        } else if es(nombre, "--trabajo") {
            let n = parsear_trabajo(valor.as_str())?;
            self.trabajo = Some(n);
            assert(self@ =~= Lectura { trabajo: Some(n), ..e });
        } else if es(nombre, "--max-trabajo") {
            let n = parsear_trabajo(valor.as_str())?;
            self.max_trabajo = Some(n);
            assert(self@ =~= Lectura { max_trabajo: Some(n), ..e });
        } else {
            let b = parsear_tamano(valor.as_str())?;
            self.bloque = Some(b);
            assert(self@ =~= Lectura { bloque: Some(b), ..e });
        }
        Ok(())
    }

    /// Reads the argument `args[i]`, and its value when it takes one.
    fn leer(&mut self, args: &[String], i: usize) -> (r: Result<Flujo, Error>)
        requires
            i < args@.len(),
            lectura_en_rango(old(self)@),
        ensures
            lectura_en_rango(final(self)@),
            ({
                let vs = textos(args@);
                let antes = recorrer(vs.skip(i as int), old(self)@);
                match r {
                    Ok(Flujo::Sigue(j)) => i < j <= args@.len() && antes == recorrer(
                        vs.skip(j as int),
                        final(self)@,
                    ),
                    Ok(Flujo::Ayuda) => antes == Recorrido::Ayuda,
                    Ok(Flujo::Version) => antes == Recorrido::Version,
                    Err(Error::Otro(m)) => antes == Recorrido::Falla(m@),
                    Err(_) => false,
                }
            }),
    {
        let ghost vs = textos(args@);
        let ghost resto = vs.skip(i as int);
        let ghost e = self@;
        assert(resto[0] == args@[i as int]@);
        assert(resto.drop_first() =~= vs.skip(i + 1));
        let a = caracteres(args[i].as_str());
        let (nombre, pegado) = partir(a.as_slice());
        let nm = nombre.as_slice();
        if es(nm, "-h") || es(nm, "--help") {
            return Ok(Flujo::Ayuda);
        }
        if es(nm, "-V") || es(nm, "--version") {
            return Ok(Flujo::Version);
        }
        if es(nm, "--utf16le") {
            self.utf16le = true;
            assert(self@ =~= Lectura { utf16le: true, ..e });
        } else if es(nm, "--forzar") {
            self.forzar = true;
            assert(self@ =~= Lectura { forzar: true, ..e });
        } else if es(nm, "--stdin") {
            self.por_stdin = true;
            assert(self@ =~= Lectura { por_stdin: true, ..e });
        } else if es(nm, "--stdout") {
            self.por_stdout = true;
            assert(self@ =~= Lectura { por_stdout: true, ..e });
        } else if es(nm, "--desrellenar") {
            self.desrellenar = true;
            assert(self@ =~= Lectura { desrellenar: true, ..e });
        } else if es_de_valor(nm) {
            let (valor, siguiente): (String, usize) = match pegado {
                Some(p) => (cadena_de(p.as_slice()), i + 1),
                None => {
                    if i + 1 < args.len() {
                        assert(resto.drop_first()[0] == args@[i + 1]@);
                        assert(resto.drop_first().drop_first() =~= vs.skip(i + 2));
                        (args[i + 1].clone(), i + 2)
                    } else {
                        return Err(Error::Otro(con_cita("a ", nm, " le falta el valor")));
                    }
                },
            };
            self.tomar_valor(nm, valor)?;
            return Ok(Flujo::Sigue(siguiente));
        } else if empieza(nm, caracteres("-p").as_slice()) || empieza(
            nm,
            caracteres("--clave").as_slice(),
        ) || empieza(nm, caracteres("--password").as_slice()) {
            return Err(
                Error::otro(
                    "la clave no se pasa por argumento, nunca. Mandala por stdin: los argumentos de un proceso los puede leer cualquier otro proceso. (Un destinatario x25519 si va por argumento: es publico. Ver --para.)",
                ),
            );
        } else if empieza(nm, caracteres("-").as_slice()) {
            let t = cadena_de(nm);
            let q = citar(t.as_str());
            return Err(Error::Otro(unir("no conozco la opcion ", q.as_str())));
        } else {
            self.sueltos.push(args[i].clone());
            assert(textos(self.sueltos@) =~= e.sueltos.push(args@[i as int]@));
            assert(self@ =~= Lectura { sueltos: e.sueltos.push(args@[i as int]@), ..e });
        }
        Ok(Flujo::Sigue(i + 1))
    }
}

/// Reads the command line `args` (without the program name).
pub fn parsear(args: &[String]) -> (r: Result<Accion, Error>)
    ensures
        match accion_de(textos(args@)) {
            Ok(a) => r matches Ok(x) && x@ == a,
            Err(m) => falla_con(r, m),
        },
        r matches Ok(Accion::Ejecutar(_, o)) ==> valores_en_rango(o@),
{
    let ghost vs = textos(args@);
    let mut l = Lector::nuevo();
    let n = args.len();
    let mut i: usize = 0;
    assert(vs.skip(0) =~= vs);
    while i < n
        invariant
            i <= n == args@.len(),
            vs == textos(args@),
            recorrer(vs, lectura_inicial()) == recorrer(vs.skip(i as int), l@),
            lectura_en_rango(l@),
        decreases n - i,
    {
        match l.leer(args, i)? {
            Flujo::Sigue(j) => {
                i = j;
            },
            Flujo::Ayuda => {
                return Ok(Accion::Ayuda);
            },
            Flujo::Version => {
                return Ok(Accion::Version);
            },
        }
    }
    assert(vs.skip(n as int) =~= Seq::<Seq<char>>::empty());
    terminar_lectura(l)
}

/// What the finished reading asks for: the order, its positional arguments,
/// and the options, checked.
fn terminar_lectura(l: Lector) -> (r: Result<Accion, Error>)
    requires
        lectura_en_rango(l@),
    ensures
        match accion_de_lectura(l@) {
            Ok(a) => r matches Ok(x) && x@ == a,
            Err(m) => falla_con(r, m),
        },
        r matches Ok(Accion::Ejecutar(_, o)) ==> valores_en_rango(o@),
{
    if l.sueltos.len() == 0 {
        return Ok(Accion::Ayuda);
    }
    assert(l@.sueltos[0] == l.sueltos@[0]@);
    let orden = match Orden::desde(l.sueltos[0].as_str()) {
        Some(o) => o,
        None => {
            let q = citar(l.sueltos[0].as_str());
            return Err(Error::Otro(unir3("no conozco la orden ", q.as_str(), ". Probá con --help")));
        },
    };
    let lee = orden.lee_entrada() && !l.por_stdin;
    let esperados: usize = 1 + (if lee {
        1usize
    } else {
        0usize
    }) + (if !l.por_stdout {
        1usize
    } else {
        0usize
    });
    if l.sueltos.len() != esperados {
        let mut m = "esperaba: ".to_owned();
        let f = forma(orden, l.por_stdin, l.por_stdout);
        m.append(f.as_str());
        m.append(". Me pasaste ");
        let cuantos = en_decimal(l.sueltos.len() as u64);
        m.append(cuantos.as_str());
        m.append(" cosa(s) y no ");
        let cifras = en_decimal(esperados as u64);
        m.append(cifras.as_str());
        m.append(".");
        return Err(Error::Otro(m));
    }
    let entrada = if lee {
        assert(l@.sueltos[1] == l.sueltos@[1]@);
        Some(l.sueltos[1].clone())
    } else {
        None
    };
    let salida = if l.por_stdout {
        None
    } else {
        assert(l@.sueltos[esperados - 1] == l.sueltos@[esperados - 1]@);
        Some(l.sueltos[esperados - 1].clone())
    };
    let por_stdin = l.por_stdin;
    let opciones = Opciones {
        entrada,
        salida,
        utf16le: l.utf16le,
        forzar: l.forzar,
        para: l.para,
        identidad: l.identidad,
        trabajo: l.trabajo,
        max_trabajo: l.max_trabajo,
        bloque: l.bloque,
        desrellenar: l.desrellenar,
    };
    validar(orden, &opciones, por_stdin)?;
    Ok(Accion::Ejecutar(orden, opciones))
}

// ---------------------------------------------------------------------------
// What the order needs
// ---------------------------------------------------------------------------

/// Whether a passphrase is read from stdin: to close without `--para`, or to
/// open without `--identidad`. With keys no secret travels on stdin, and all
/// of it is left to the content.
pub open spec fn usa_clave_de(orden: Orden, o: OpcionesVista) -> bool {
    match orden {
        Orden::Cifrar => o.para.len() == 0,
        Orden::Abrir => o.identidad is None,
        _ => false,
    }
}

/// Whether the order reads a passphrase from stdin.
pub fn usa_clave(orden: Orden, o: &Opciones) -> (b: bool)
    ensures
        b == usa_clave_de(orden, o@),
{
    match orden {
        Orden::Cifrar => o.para.len() == 0,
        Orden::Abrir => o.identidad.is_none(),
        _ => false,
    }
}

/// Whether the passphrase comes framed: when the content shares stdin with it.
pub fn clave_enmarcada(o: &Opciones) -> (b: bool)
    ensures
        b == (o@.entrada is None),
{
    o.entrada.is_none()
}

pub open spec fn msg_ya_existe(ruta: Seq<char>) -> Seq<char> {
    ruta + " ya existe. Usa --forzar si de verdad lo querés pisar."@
}

/// An output file that already exists is only overwritten with `--forzar`.
pub fn comprobar_destino(ruta: &str, existe: bool, forzar: bool) -> (r: Result<(), Error>)
    ensures
        existe && !forzar ==> falla_con(r, msg_ya_existe(ruta@)),
        !(existe && !forzar) ==> r is Ok,
{
    if existe && !forzar {
        return Err(Error::Otro(unir(ruta, " ya existe. Usa --forzar si de verdad lo querés pisar.")));
    }
    Ok(())
}

/// The line on stderr that tells how it went: the output file and its size,
/// or how many bytes of content went to stdout. Never on stdout: data goes there.
pub open spec fn informe_de(verbo: Seq<char>, salida: Option<Seq<char>>, bytes_archivo: u64, copiados: u64) -> Seq<char> {
    match salida {
        Some(ruta) => verbo + ": "@ + ruta + " ("@ + decimal(bytes_archivo as nat) + " bytes)"@,
        None => verbo + ": "@ + decimal(copiados as nat) + " bytes de contenido -> stdout"@,
    }
}

/// The report line. `bytes_archivo` is the size of the output file, when there is one.
pub fn informe(verbo: &str, salida: Option<&str>, bytes_archivo: u64, copiados: u64) -> (r: String)
    ensures
        r@ == informe_de(
            verbo@,
            match salida {
                Some(s) => Some(s@),
                None => None,
            },
            bytes_archivo,
            copiados,
        ),
{
    let mut m = verbo.to_owned();
    m.append(": ");
    match salida {
        Some(ruta) => {
            m.append(ruta);
            m.append(" (");
            let b = en_decimal(bytes_archivo);
            m.append(b.as_str());
            m.append(" bytes)");
        },
        None => {
            let c = en_decimal(copiados);
            m.append(c.as_str());
            m.append(" bytes de contenido -> stdout");
        },
    }
    m
}

// ---------------------------------------------------------------------------
// Laws
// ---------------------------------------------------------------------------

/// Reading goes on from where a finished stretch of arguments left it.
proof fn lema_recorrer_sigue(pre: Seq<Seq<char>>, rest: Seq<Seq<char>>, e0: Lectura)
    requires
        recorrer(pre, e0) is Listo,
    ensures
        recorrer(pre + rest, e0) == recorrer(rest, recorrer(pre, e0)->Listo_0),
    decreases pre.len(),
{
    if pre.len() == 0 {
        assert(pre + rest =~= rest);
    } else {
        let todo = pre + rest;
        let a = pre[0];
        assert(todo[0] == a);
        assert(todo.drop_first() =~= pre.drop_first() + rest);
        let nombre = nombre_y_pegado(a).0;
        let pegado = nombre_y_pegado(a).1;
        if nombre == "-h"@ || nombre == "--help"@ || nombre == "-V"@ || nombre == "--version"@ {
        } else if nombre == "--utf16le"@ {
            lema_recorrer_sigue(pre.drop_first(), rest, Lectura { utf16le: true, ..e0 });
        } else if nombre == "--forzar"@ {
            lema_recorrer_sigue(pre.drop_first(), rest, Lectura { forzar: true, ..e0 });
        } else if nombre == "--stdin"@ {
            lema_recorrer_sigue(pre.drop_first(), rest, Lectura { por_stdin: true, ..e0 });
        } else if nombre == "--stdout"@ {
            lema_recorrer_sigue(pre.drop_first(), rest, Lectura { por_stdout: true, ..e0 });
        } else if nombre == "--desrellenar"@ {
            lema_recorrer_sigue(pre.drop_first(), rest, Lectura { desrellenar: true, ..e0 });
        } else if lleva_valor(nombre) {
            let resto = pre.drop_first();
            if pegado is Some {
                let valor = pegado->0;
                if let Ok(e2) = con_valor(nombre, valor, e0) {
                    lema_recorrer_sigue(resto, rest, e2);
                }
            } else {
                assert(resto.len() > 0);
                let valor = resto[0];
                assert(todo.drop_first()[0] == valor);
                assert(todo.drop_first().drop_first() =~= resto.drop_first() + rest);
                if let Ok(e2) = con_valor(nombre, valor, e0) {
                    lema_recorrer_sigue(resto.drop_first(), rest, e2);
                }
            }
        } else if empieza_con(nombre, "-p"@) || empieza_con(nombre, "--clave"@) || empieza_con(
            nombre,
            "--password"@,
        ) {
        } else if empieza_con(nombre, "-"@) {
        } else {
            lema_recorrer_sigue(
                pre.drop_first(),
                rest,
                Lectura { sueltos: e0.sueltos.push(a), ..e0 },
            );
        }
    }
}

/// A secret is never taken as an argument: whatever came before and whatever
/// follows, an argument that looks like one (`-p...`, `--clave...`,
/// `--password...`) makes the whole command line be refused, with a message
/// that says to send it through stdin. Only a value of a flag that takes one
/// (`--para -p...`) is not read as an argument.
pub proof fn ley_la_clave_no_va_por_argumento(
    antes: Seq<Seq<char>>,
    a: Seq<char>,
    despues: Seq<Seq<char>>,
)
    requires
        recorrer(antes, lectura_inicial()) is Listo,
        empieza_con(nombre_y_pegado(a).0, "-p"@) || empieza_con(nombre_y_pegado(a).0, "--clave"@)
            || empieza_con(nombre_y_pegado(a).0, "--password"@),
    ensures
        accion_de(antes + seq![a] + despues) == Err::<AccionVista, Seq<char>>(
            msg_clave_por_argumento(),
        ),
{
    let resto = seq![a] + despues;
    assert(antes + seq![a] + despues =~= antes + resto);
    lema_recorrer_sigue(antes, resto, lectura_inicial());
    let e = recorrer(antes, lectura_inicial())->Listo_0;
    let nombre = nombre_y_pegado(a).0;
    assert(resto[0] == a);
    reveal_strlit("-p");
    reveal_strlit("--clave");
    reveal_strlit("--password");
    reveal_strlit("-h");
    reveal_strlit("--help");
    reveal_strlit("-V");
    reveal_strlit("--version");
    reveal_strlit("--utf16le");
    reveal_strlit("--forzar");
    reveal_strlit("--stdin");
    reveal_strlit("--stdout");
    reveal_strlit("--desrellenar");
    reveal_strlit("--para");
    reveal_strlit("--identidad");
    reveal_strlit("--trabajo");
    reveal_strlit("--max-trabajo");
    reveal_strlit("--bloque");
    if empieza_con(nombre, "-p"@) {
        assert(nombre.take(2)[0] == nombre[0] && nombre.take(2)[1] == nombre[1]);
        assert(nombre[0] == '-' && nombre[1] == 'p');
    } else if empieza_con(nombre, "--clave"@) {
        assert(nombre.take(7)[1] == nombre[1] && nombre.take(7)[2] == nombre[2]);
        assert(nombre.len() >= 7 && nombre[1] == '-' && nombre[2] == 'c');
    } else {
        assert(nombre.take(10)[1] == nombre[1] && nombre.take(10)[2] == nombre[2]);
        assert(nombre.len() >= 10 && nombre[1] == '-' && nombre[2] == 'p');
    }
    assert(nombre != "-h"@ && nombre != "--help"@ && nombre != "-V"@ && nombre != "--version"@);
    assert(nombre != "--utf16le"@ && nombre != "--forzar"@ && nombre != "--stdin"@ && nombre
        != "--stdout"@ && nombre != "--desrellenar"@);
    assert(!lleva_valor(nombre));
    assert(recorrer(resto, e) == Recorrido::Falla(msg_clave_por_argumento()));
}

proof fn lema_flag_de_valor(f: Seq<char>, v: Seq<char>)
    requires
        lleva_valor(f),
    ensures
        nombre_y_pegado(f) == (f, None::<Seq<char>>),
        nombre_y_pegado(f + "="@ + v) == (f, Some(v)),
        !(f == "-h"@ || f == "--help"@ || f == "-V"@ || f == "--version"@ || f == "--utf16le"@
            || f == "--forzar"@ || f == "--stdin"@ || f == "--stdout"@ || f == "--desrellenar"@),
{
    reveal_strlit("=");
    reveal_strlit("--");
    reveal_strlit("-h");
    reveal_strlit("--help");
    reveal_strlit("-V");
    reveal_strlit("--version");
    reveal_strlit("--utf16le");
    reveal_strlit("--forzar");
    reveal_strlit("--stdin");
    reveal_strlit("--stdout");
    reveal_strlit("--desrellenar");
    reveal_strlit("--para");
    reveal_strlit("--identidad");
    reveal_strlit("--trabajo");
    reveal_strlit("--max-trabajo");
    reveal_strlit("--bloque");
    assert(forall|i: int| 0 <= i < f.len() ==> f[i] != '=');
    assert(f.len() >= 2 && f[0] == '-' && f[1] == '-');
    assert("--help"@[2] == 'h' && "--version"@[2] == 'v' && "--utf16le"@[2] == 'u');
    assert("--forzar"@[2] == 'f' && "--stdout"@[2] == 's' && "--desrellenar"@[2] == 'd');
    if f == "--para"@ {
        assert(f.len() == 6 && f[2] == 'p');
    } else if f == "--identidad"@ {
        assert(f.len() == 11);
    } else if f == "--trabajo"@ {
        assert(f.len() == 9 && f[2] == 't');
    } else if f == "--max-trabajo"@ {
        assert(f.len() == 13 && f[2] == 'm');
    } else {
        assert(f.len() == 8 && f[2] == 'b');
    }
    lema_posicion_de(f, '=', f.len() as int);
    let a = f + "="@ + v;
    assert forall|i: int| 0 <= i < f.len() implies a[i] != '=' by {
        assert(a[i] == f[i]);
    }
    assert(a[f.len() as int] == '=');
    lema_posicion_de(a, '=', f.len() as int);
    assert(a.take(f.len() as int) =~= f);
    assert(f.take(2) =~= "--"@);
    assert(a.skip(f.len() + 1int) =~= v);
}

/// Reading `pre` stops for lack of a value after its last argument: a flag
/// that takes one, written without `=`, comes last.
pub open spec fn falta_valor_al_final(pre: Seq<Seq<char>>, e: Lectura) -> bool {
    pre.len() > 0 && recorrer(pre, e) == Recorrido::Falla(
        msg_falta_valor(nombre_y_pegado(pre.last()).0),
    )
}

/// Reading that stops inside `pre`, not for lack of a value at its end, does
/// not look at what follows.
proof fn lema_recorrer_se_detiene(pre: Seq<Seq<char>>, rest: Seq<Seq<char>>, e0: Lectura)
    requires
        !(recorrer(pre, e0) is Listo),
        !falta_valor_al_final(pre, e0),
    ensures
        recorrer(pre + rest, e0) == recorrer(pre, e0),
    decreases pre.len(),
{
    if pre.len() > 0 {
        let todo = pre + rest;
        let a = pre[0];
        assert(todo[0] == a);
        assert(todo.drop_first() =~= pre.drop_first() + rest);
        let nombre = nombre_y_pegado(a).0;
        let pegado = nombre_y_pegado(a).1;
        let resto = pre.drop_first();
        if resto.len() > 0 {
            assert(resto.last() == pre.last());
        }
        if nombre == "-h"@ || nombre == "--help"@ || nombre == "-V"@ || nombre == "--version"@ {
        } else if nombre == "--utf16le"@ {
            lema_recorrer_se_detiene(resto, rest, Lectura { utf16le: true, ..e0 });
        } else if nombre == "--forzar"@ {
            lema_recorrer_se_detiene(resto, rest, Lectura { forzar: true, ..e0 });
        } else if nombre == "--stdin"@ {
            lema_recorrer_se_detiene(resto, rest, Lectura { por_stdin: true, ..e0 });
        } else if nombre == "--stdout"@ {
            lema_recorrer_se_detiene(resto, rest, Lectura { por_stdout: true, ..e0 });
        } else if nombre == "--desrellenar"@ {
            lema_recorrer_se_detiene(resto, rest, Lectura { desrellenar: true, ..e0 });
        } else if lleva_valor(nombre) {
            if pegado is Some {
                let valor = pegado->0;
                if let Ok(e2) = con_valor(nombre, valor, e0) {
                    lema_recorrer_se_detiene(resto, rest, e2);
                }
            } else {
                assert(resto.len() > 0);
                let valor = resto[0];
                assert(todo.drop_first()[0] == valor);
                assert(todo.drop_first().drop_first() =~= resto.drop_first() + rest);
                if let Ok(e2) = con_valor(nombre, valor, e0) {
                    if resto.drop_first().len() > 0 {
                        assert(resto.drop_first().last() == pre.last());
                    }
                    lema_recorrer_se_detiene(resto.drop_first(), rest, e2);
                }
            }
        } else if empieza_con(nombre, "-p"@) || empieza_con(nombre, "--clave"@) || empieza_con(
            nombre,
            "--password"@,
        ) {
        } else if empieza_con(nombre, "-"@) {
        } else {
            lema_recorrer_se_detiene(resto, rest, Lectura { sueltos: e0.sueltos.push(a), ..e0 });
        }
    }
}

/// `--flag value` and `--flag=value` read alike: for every flag that takes a
/// value, whatever the value (it may hold `=` itself), whatever follows, and
/// whatever comes before, the two command lines ask for the same thing, or
/// are refused with the same message. The one exception is a flag that takes
/// a value written last in what comes before (`--para` just before
/// `--bloque 4K`): there the flag becomes that earlier value, whole or cut
/// at `=`.
pub proof fn ley_valor_pegado_o_suelto(
    antes: Seq<Seq<char>>,
    f: Seq<char>,
    v: Seq<char>,
    despues: Seq<Seq<char>>,
)
    requires
        !falta_valor_al_final(antes, lectura_inicial()),
        lleva_valor(f),
    ensures
        accion_de(antes + seq![f, v] + despues) == accion_de(antes + seq![f + "="@ + v] + despues),
{
    let r1 = seq![f, v] + despues;
    let r2 = seq![f + "="@ + v] + despues;
    assert(antes + seq![f, v] + despues =~= antes + r1);
    assert(antes + seq![f + "="@ + v] + despues =~= antes + r2);
    if recorrer(antes, lectura_inicial()) is Listo {
        lema_recorrer_sigue(antes, r1, lectura_inicial());
        lema_recorrer_sigue(antes, r2, lectura_inicial());
        lema_paso_con_valor(f, v, despues, recorrer(antes, lectura_inicial())->Listo_0);
    } else {
        lema_recorrer_se_detiene(antes, r1, lectura_inicial());
        lema_recorrer_se_detiene(antes, r2, lectura_inicial());
    }
}

proof fn lema_paso_con_valor(f: Seq<char>, v: Seq<char>, despues: Seq<Seq<char>>, e: Lectura)
    requires
        lleva_valor(f),
    ensures
        recorrer(seq![f, v] + despues, e) == recorrer(seq![f + "="@ + v] + despues, e),
{
    let r1 = seq![f, v] + despues;
    let r2 = seq![f + "="@ + v] + despues;
    lema_flag_de_valor(f, v);
    assert(r1[0] == f);
    assert(r1.drop_first()[0] == v);
    assert(r1.drop_first().drop_first() =~= despues);
    assert(r2[0] == f + "="@ + v);
    assert(r2.drop_first() =~= despues);
}

/// A passphrase is read from stdin only where there is no key to use: to
/// close without `--para`, or to open without `--identidad`. With an identity
/// file no passphrase is read, and the orders that use no secret read none.
pub proof fn ley_la_clave_solo_sin_llaves(orden: Orden, o: OpcionesVista)
    ensures
        orden == Orden::Abrir ==> (usa_clave_de(orden, o) <==> o.identidad is None),
        orden == Orden::Cifrar ==> (usa_clave_de(orden, o) <==> o.para.len() == 0),
        orden != Orden::Abrir && orden != Orden::Cifrar ==> !usa_clave_de(orden, o),
{
}

/// `--utf16le` only says how the passphrase is written: for the orders that
/// read one (`cifrar`, `abrir`) it never decides whether the options are
/// refused; for the others, it is refused unless something else already is.
pub proof fn ley_utf16le_solo_habla_de_la_clave(orden: Orden, o: OpcionesVista, por_stdin: bool)
    ensures
        orden == Orden::Cifrar || orden == Orden::Abrir ==> motivo_invalido(
            orden,
            OpcionesVista { utf16le: true, ..o },
            por_stdin,
        ) == motivo_invalido(orden, OpcionesVista { utf16le: false, ..o }, por_stdin),
        !(orden == Orden::Cifrar || orden == Orden::Abrir) && motivo_invalido(
            orden,
            OpcionesVista { utf16le: false, ..o },
            por_stdin,
        ) is None ==> motivo_invalido(orden, OpcionesVista { utf16le: true, ..o }, por_stdin)
            is Some,
{
}

/// The argument `a` is named `--forzar` (with or without `=`).
pub open spec fn nombra_forzar(a: Seq<char>) -> bool {
    nombre_y_pegado(a).0 == "--forzar"@
}

/// Reading never clears `--forzar` once read.
proof fn lema_forzar_se_queda(args: Seq<Seq<char>>, e: Lectura)
    requires
        e.forzar,
        recorrer(args, e) is Listo,
    ensures
        (recorrer(args, e)->Listo_0).forzar,
    decreases args.len(),
{
    if args.len() > 0 {
        let a = args[0];
        let resto = args.drop_first();
        let nombre = nombre_y_pegado(a).0;
        let pegado = nombre_y_pegado(a).1;
        if nombre == "-h"@ || nombre == "--help"@ || nombre == "-V"@ || nombre == "--version"@ {
        } else if nombre == "--utf16le"@ {
            lema_forzar_se_queda(resto, Lectura { utf16le: true, ..e });
        } else if nombre == "--forzar"@ {
            lema_forzar_se_queda(resto, Lectura { forzar: true, ..e });
        } else if nombre == "--stdin"@ {
            lema_forzar_se_queda(resto, Lectura { por_stdin: true, ..e });
        } else if nombre == "--stdout"@ {
            lema_forzar_se_queda(resto, Lectura { por_stdout: true, ..e });
        } else if nombre == "--desrellenar"@ {
            lema_forzar_se_queda(resto, Lectura { desrellenar: true, ..e });
        } else if lleva_valor(nombre) {
            if !(pegado is None && resto.len() == 0) {
                let valor = match pegado {
                    Some(v) => v,
                    None => resto[0],
                };
                let siguiente = if pegado is Some {
                    resto
                } else {
                    resto.drop_first()
                };
                if let Ok(e2) = con_valor(nombre, valor, e) {
                    lema_forzar_se_queda(siguiente, e2);
                }
            }
        } else if empieza_con(nombre, "-p"@) || empieza_con(nombre, "--clave"@) || empieza_con(
            nombre,
            "--password"@,
        ) {
        } else if empieza_con(nombre, "-"@) {
        } else {
            lema_forzar_se_queda(resto, Lectura { sueltos: e.sueltos.push(a), ..e });
        }
    }
}

/// Reading arguments none of which is named `--forzar` never sets it.
proof fn lema_forzar_no_aparece(args: Seq<Seq<char>>, e: Lectura)
    requires
        !e.forzar,
        forall|i: int| 0 <= i < args.len() ==> !nombra_forzar(#[trigger] args[i]),
        recorrer(args, e) is Listo,
    ensures
        !(recorrer(args, e)->Listo_0).forzar,
    decreases args.len(),
{
    if args.len() > 0 {
        let a = args[0];
        let resto = args.drop_first();
        assert(!nombra_forzar(args[0]));
        assert forall|i: int| 0 <= i < resto.len() implies !nombra_forzar(#[trigger] resto[i]) by {
            assert(resto[i] == args[i + 1]);
        }
        let nombre = nombre_y_pegado(a).0;
        let pegado = nombre_y_pegado(a).1;
        if nombre == "-h"@ || nombre == "--help"@ || nombre == "-V"@ || nombre == "--version"@ {
        } else if nombre == "--utf16le"@ {
            lema_forzar_no_aparece(resto, Lectura { utf16le: true, ..e });
        } else if nombre == "--forzar"@ {
        } else if nombre == "--stdin"@ {
            lema_forzar_no_aparece(resto, Lectura { por_stdin: true, ..e });
        } else if nombre == "--stdout"@ {
            lema_forzar_no_aparece(resto, Lectura { por_stdout: true, ..e });
        } else if nombre == "--desrellenar"@ {
            lema_forzar_no_aparece(resto, Lectura { desrellenar: true, ..e });
        } else if lleva_valor(nombre) {
            if !(pegado is None && resto.len() == 0) {
                let valor = match pegado {
                    Some(v) => v,
                    None => resto[0],
                };
                if pegado is Some {
                    if let Ok(e2) = con_valor(nombre, valor, e) {
                        lema_forzar_no_aparece(resto, e2);
                    }
                } else {
                    let siguiente = resto.drop_first();
                    assert forall|i: int| 0 <= i < siguiente.len() implies !nombra_forzar(
                        #[trigger] siguiente[i],
                    ) by {
                        assert(siguiente[i] == resto[i + 1]);
                    }
                    if let Ok(e2) = con_valor(nombre, valor, e) {
                        lema_forzar_no_aparece(siguiente, e2);
                    }
                }
            }
        } else if empieza_con(nombre, "-p"@) || empieza_con(nombre, "--clave"@) || empieza_con(
            nombre,
            "--password"@,
        ) {
        } else if empieza_con(nombre, "-"@) {
        } else {
            lema_forzar_no_aparece(resto, Lectura { sueltos: e.sueltos.push(a), ..e });
        }
    }
}

/// Every `--forzar` read is kept: a command line that asks for an order with
/// `--forzar` read as an argument (not as the value of a flag that takes
/// one) has `forzar` set, and one in which no argument is named `--forzar`
/// has it unset.
pub proof fn ley_forzar_se_lee(antes: Seq<Seq<char>>, despues: Seq<Seq<char>>, args: Seq<Seq<char>>)
    ensures
        recorrer(antes, lectura_inicial()) is Listo ==> (accion_de(
            antes + seq!["--forzar"@] + despues,
        ) matches Ok(AccionVista::Ejecutar(_, o)) ==> o.forzar),
        (forall|i: int| 0 <= i < args.len() ==> !nombra_forzar(#[trigger] args[i])) ==> (accion_de(
            args,
        ) matches Ok(AccionVista::Ejecutar(_, o)) ==> !o.forzar),
{
    reveal_strlit("--forzar");
    reveal_strlit("-h");
    reveal_strlit("--help");
    reveal_strlit("-V");
    reveal_strlit("--version");
    reveal_strlit("--utf16le");
    reveal_strlit("=");
    if recorrer(antes, lectura_inicial()) is Listo {
        let r = seq!["--forzar"@] + despues;
        assert(antes + seq!["--forzar"@] + despues =~= antes + r);
        lema_recorrer_sigue(antes, r, lectura_inicial());
        let e = recorrer(antes, lectura_inicial())->Listo_0;
        let f = "--forzar"@;
        assert(r[0] == f);
        assert(r.drop_first() =~= despues);
        lema_posicion_de(f, '=', f.len() as int);
        assert(nombre_y_pegado(f).0 == f);
        assert(f != "-h"@ && f != "--help"@ && f != "-V"@ && f != "--version"@ && f
            != "--utf16le"@);
        if recorrer(despues, Lectura { forzar: true, ..e }) is Listo {
            lema_forzar_se_queda(despues, Lectura { forzar: true, ..e });
        }
    }
    if (forall|i: int| 0 <= i < args.len() ==> !nombra_forzar(#[trigger] args[i])) && recorrer(
        args,
        lectura_inicial(),
    ) is Listo {
        lema_forzar_no_aparece(args, lectura_inicial());
    }
}

} // verus!
