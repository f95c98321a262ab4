//! The error of the tool, and the exit code each kind of failure maps to.

use vstd::prelude::*;
use vstd::arithmetic::power2::pow2;

use crate::argumentos::unir;
use crate::texto::{decimal, en_decimal};

verus! {

/// Everything went fine.
pub const SALIDA_OK: u8 = 0;
/// Usage, disk, permissions: everything not listed below.
pub const SALIDA_ERROR: u8 = 1;
/// The envelope is fine; the secret is not the one that closed it.
pub const SALIDA_CLAVE: u8 = 2;
/// These bytes are not an envelope that can be opened this way.
pub const SALIDA_NO_ES_SOBRE: u8 = 3;
/// The envelope demands more scrypt work than this machine accepts.
pub const SALIDA_TRABAJO: u8 = 4;

/// What the logic reads of an `std::io::ErrorKind`.
#[derive(Clone, Copy, Debug, PartialEq, Eq, Structural)]
pub enum ClaseIo {
    /// The stream ended before the expected bytes arrived.
    UnexpectedEof,
    /// The bytes read were not valid (in `age`'s payload: a chunk whose tag does not verify).
    InvalidData,
    /// Any other kind.
    Otra,
}

/// The variants of `age::DecryptError`, as plain values.
#[derive(Clone, Copy, Debug, PartialEq, Eq, Structural)]
pub enum FalloAge {
    DecryptionFailed,
    ExcessiveWork { required: u8, target: u8 },
    InvalidHeader,
    InvalidMac,
    Io(ClaseIo),
    KeyDecryptionFailed,
    NoMatchingKeys,
    UnknownFormat,
}

/// Why a byte stream is not an envelope: an `age` failure or a failed read.
#[derive(Clone, Copy, Debug, PartialEq, Eq, Structural)]
pub enum Causa {
    Age(FalloAge),
    Io(ClaseIo),
}

/// The error of the tool.
///
/// Only the failures that a caller needs to tell apart get a variant of their
/// own; everything else is `Otro` with its message.
#[derive(Debug)]
pub enum Error {
    /// The envelope is fine; the secret is not that one. Exits with 2.
    ClaveIncorrecta { origen: String, causa: Causa },
    /// These bytes are not an envelope that opens this way. Exits with 3.
    NoEsSobre { origen: String, causa: Causa },
    /// The envelope was closed on a much faster machine. Exits with 4.
    TrabajoExcesivo { origen: String, pide: u8, acepta: u8 },
    /// Arguments, permissions, disk. Exits with 1.
    Otro(String),
}

/// The exit code of each kind of error.
pub open spec fn codigo_de(e: Error) -> u8 {
    match e {
        Error::ClaveIncorrecta { .. } => SALIDA_CLAVE,
        Error::NoEsSobre { .. } => SALIDA_NO_ES_SOBRE,
        Error::TrabajoExcesivo { .. } => SALIDA_TRABAJO,
        Error::Otro(_) => SALIDA_ERROR,
    }
}

/// `r` failed with `Otro` and exactly the message `m`.
pub open spec fn falla_con<T>(r: Result<T, Error>, m: Seq<char>) -> bool {
    r matches Err(Error::Otro(s)) && s@ == m
}

impl Error {
    /// The number the shell sees.
    pub fn codigo(&self) -> (c: u8)
        ensures
            c == codigo_de(*self),
    {
        match self {
            Error::ClaveIncorrecta { .. } => SALIDA_CLAVE,
            Error::NoEsSobre { .. } => SALIDA_NO_ES_SOBRE,
            Error::TrabajoExcesivo { .. } => SALIDA_TRABAJO,
            Error::Otro(_) => SALIDA_ERROR,
        }
    }

    /// An `Otro` error whose message is `m`.
    pub fn otro(m: &str) -> (e: Error)
        ensures
            e matches Error::Otro(s) && s@ == m@,
    {
        Error::Otro(m.to_owned())
    }
}

/// `a - b`, or 0 when `b` is larger.
pub open spec fn resta_saturada(a: u8, b: u8) -> nat {
    if a >= b {
        (a - b) as nat
    } else {
        0
    }
}

/// The message of an error is defined: writing how many times longer an
/// envelope takes needs `2^(pide - acepta)` to fit in 64 bits.
pub open spec fn bien_formado(e: Error) -> bool {
    e matches Error::TrabajoExcesivo { pide, acepta, .. } ==> resta_saturada(pide, acepta) < 64
}

/// What the error says.
pub open spec fn mensaje_de(e: Error) -> Seq<char> {
    match e {
        Error::ClaveIncorrecta { origen, .. } => "la clave no abre "@ + origen@,
        Error::NoEsSobre { origen, .. } => origen@ + " no es un sobre que se pueda abrir asi"@,
        Error::TrabajoExcesivo { origen, pide, acepta } => origen@
            + " fue cerrado con un factor de trabajo de "@ + decimal(pide as nat)
            + " y esta maquina acepta hasta "@ + decimal(acepta as nat) + ". Usá --max-trabajo "@
            + decimal(pide as nat) + " si estás dispuesto a esperar "@ + decimal(
            pow2(resta_saturada(pide, acepta)),
        ) + "x lo que tarda normalmente."@,
        Error::Otro(m) => m@,
    }
}

/// What lies underneath the error, as far as the error says.
pub open spec fn causa_de(e: Error) -> Option<Causa> {
    match e {
        Error::ClaveIncorrecta { causa, .. } => Some(causa),
        Error::NoEsSobre { causa, .. } => Some(causa),
        Error::TrabajoExcesivo { .. } => None,
        Error::Otro(_) => None,
    }
}

impl Error {
    /// The message for whoever runs the tool. It never repeats the cause,
    /// which comes underneath: `causa`.
    pub fn mensaje(&self) -> (m: String)
        requires
            bien_formado(*self),
        ensures
            m@ == mensaje_de(*self),
    {
        match self {
            Error::ClaveIncorrecta { origen, .. } => unir("la clave no abre ", origen.as_str()),
            Error::NoEsSobre { origen, .. } => unir(
                origen.as_str(),
                " no es un sobre que se pueda abrir asi",
            ),
            Error::TrabajoExcesivo { origen, pide, acepta } => {
                let k: u64 = if *pide >= *acepta {
                    (*pide - *acepta) as u64
                } else {
                    0
                };
                proof {
                    vstd::bits::lemma_u64_pow2_no_overflow(k as nat);
                    vstd::bits::lemma_u64_shl_is_mul(1, k);
                }
                let veces = 1u64 << k;
                let p = en_decimal(*pide as u64);
                let a = en_decimal(*acepta as u64);
                let v = en_decimal(veces);
                let mut m = origen.clone();
                m.append(" fue cerrado con un factor de trabajo de ");
                m.append(p.as_str());
                m.append(" y esta maquina acepta hasta ");
                m.append(a.as_str());
                m.append(". Usá --max-trabajo ");
                m.append(p.as_str());
                m.append(" si estás dispuesto a esperar ");
                m.append(v.as_str());
                m.append("x lo que tarda normalmente.");
                m
            },
            Error::Otro(m) => m.clone(),
        }
    }

    /// The cause underneath: for a wrong secret or something that is not an
    /// envelope, the failure that showed it; nothing otherwise, since the
    /// message already says it all.
    pub fn causa(&self) -> (c: Option<Causa>)
        ensures
            c == causa_de(*self),
    {
        match self {
            Error::ClaveIncorrecta { causa, .. } => Some(*causa),
            Error::NoEsSobre { causa, .. } => Some(*causa),
            Error::TrabajoExcesivo { .. } => None,
            Error::Otro(_) => None,
        }
    }
}

impl From<String> for Error {
    fn from(m: String) -> (e: Error) {
        Error::Otro(m)
    }
}

impl vstd::std_specs::convert::FromSpecImpl<String> for Error {
    open spec fn obeys_from_spec() -> bool {
        true
    }

    open spec fn from_spec(m: String) -> Error {
        Error::Otro(m)
    }
}

// ---------------------------------------------------------------------------
// Classifying the failures of `age`
// ---------------------------------------------------------------------------

/// The error for a failure of `age` while opening `origen`. `descripcion` is
/// what the failure says of itself.
///
/// `DecryptionFailed` is the AEAD around the file key not closing: with one
/// identity at play, the secret is not that one. `NoMatchingKeys`, despite its
/// name, is not a wrong key: no identity recognised the stanza, so the
/// envelope was closed some other way. A read cut short is a truncated
/// envelope; any other read failure is the disk's.
pub fn clasificar(fallo: FalloAge, descripcion: &str, origen: &str) -> (e: Error)
    ensures
        match fallo {
            FalloAge::DecryptionFailed => e matches Error::ClaveIncorrecta { origen: o, causa }
                && o@ == origen@ && causa == Causa::Age(fallo),
            FalloAge::ExcessiveWork { required, target } => e matches Error::TrabajoExcesivo {
                origen: o,
                pide,
                acepta,
            } && o@ == origen@ && pide == required && acepta == target,
            FalloAge::Io(ClaseIo::UnexpectedEof) => e matches Error::NoEsSobre { origen: o, causa }
                && o@ == origen@ && causa == Causa::Age(fallo),
            FalloAge::Io(_) => e matches Error::Otro(m) && m@ == descripcion@,
            _ => e matches Error::NoEsSobre { origen: o, causa } && o@ == origen@ && causa
                == Causa::Age(fallo),
        },
{
    match fallo {
        FalloAge::DecryptionFailed => Error::ClaveIncorrecta {
            origen: origen.to_owned(),
            causa: Causa::Age(fallo),
        },
        FalloAge::NoMatchingKeys => Error::NoEsSobre {
            origen: origen.to_owned(),
            causa: Causa::Age(fallo),
        },
        FalloAge::ExcessiveWork { required, target } => Error::TrabajoExcesivo {
            origen: origen.to_owned(),
            pide: required,
            acepta: target,
        },
        FalloAge::Io(ClaseIo::UnexpectedEof) => Error::NoEsSobre {
            origen: origen.to_owned(),
            causa: Causa::Age(fallo),
        },
        FalloAge::Io(_) => Error::otro(descripcion),
        _ => Error::NoEsSobre { origen: origen.to_owned(), causa: Causa::Age(fallo) },
    }
}

/// The error for a failure while copying content that `age` already
/// decrypts. `age` checks each chunk of the payload as it reads it, so invalid
/// data is a chunk whose tag does not close, and a cut is an envelope missing
/// its tail: both mean it is not an envelope. Anything else is the disk's.
pub fn clasificar_copia(clase: ClaseIo, descripcion: &str, origen: &str) -> (e: Error)
    ensures
        clase == ClaseIo::Otra ==> (e matches Error::Otro(m) && m@ == descripcion@),
        clase != ClaseIo::Otra ==> (e matches Error::NoEsSobre { origen: o, causa } && o@
            == origen@ && causa == Causa::Io(clase)),
{
    match clase {
        ClaseIo::InvalidData | ClaseIo::UnexpectedEof => Error::NoEsSobre {
            origen: origen.to_owned(),
            causa: Causa::Io(clase),
        },
        ClaseIo::Otra => Error::otro(descripcion),
    }
}

/// The exit codes never collide: each kind of error has its own, and none is
/// the one of success.
pub proof fn ley_los_codigos_no_se_pisan(a: Error, b: Error)
    ensures
        codigo_de(a) != SALIDA_OK,
        1 <= codigo_de(a) <= 4,
        codigo_de(a) == codigo_de(b) <==> (a is ClaveIncorrecta && b is ClaveIncorrecta) || (
        a is NoEsSobre && b is NoEsSobre) || (a is TrabajoExcesivo && b is TrabajoExcesivo) || (
        a is Otro && b is Otro),
{
}

} // verus!
