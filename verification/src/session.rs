//! The checks made on a saved exploration session before its parts are read:
//! the header that marks a file as a session of this schema and version, and
//! the identifier that every saved case carries.
use vstd::prelude::*;

use crate::text::{
    CharClass, chars_of, decimal, lemma_decimal_digits, push_decimal, same_text, strip,
    strip_bounds,
};

verus! {

/// The version of the session format written and read.
pub const SESSION_VERSION: u32 = 1;

/// The schema name written at the root of every session.
pub open spec fn session_schema_text() -> Seq<char> {
    "fractal_sequences.visual_session"@
}

/// The schema name written at the root of every session.
pub fn session_schema() -> (r: &'static str)
    ensures
        r@ == session_schema_text(),
{
    "fractal_sequences.visual_session"
}

/// Why a session could not be read.
#[derive(Debug, Clone, Copy, PartialEq, Eq, Structural)]
pub enum SessionError {
    /// The root of the file is not an object.
    RootNotObject,
    /// The root does not name the session schema.
    WrongSchema,
    /// The root names another version of the format.
    WrongVersion,
    /// A part of the session is missing or has the wrong shape.
    Incomplete,
    /// The configuration is not an object.
    InvalidConfig,
    /// The configuration lacks one of its three parts.
    IncompleteConfig,
    /// A saved case has a blank identifier.
    MissingCaseIdentifier,
}

impl SessionError {
    /// The message reported for this error.
    pub fn message(&self) -> (r: &'static str)
        ensures
            r@ == match self {
                SessionError::RootNotObject => "La raiz de la sesion debe ser un objeto JSON"@,
                SessionError::WrongSchema => "El archivo no es una sesion de fractal_sequences"@,
                SessionError::WrongVersion => "Version de sesion no compatible"@,
                SessionError::Incomplete => "Sesion incompleta"@,
                SessionError::InvalidConfig => "Configuracion de sesion invalida"@,
                SessionError::IncompleteConfig => "Configuracion de sesion incompleta"@,
                SessionError::MissingCaseIdentifier => "Caso de sesion sin identificador"@,
            },
    {
        match self {
            SessionError::RootNotObject => "La raiz de la sesion debe ser un objeto JSON",
            SessionError::WrongSchema => "El archivo no es una sesion de fractal_sequences",
            SessionError::WrongVersion => "Version de sesion no compatible",
            SessionError::Incomplete => "Sesion incompleta",
            SessionError::InvalidConfig => "Configuracion de sesion invalida",
            SessionError::IncompleteConfig => "Configuracion de sesion incompleta",
            SessionError::MissingCaseIdentifier => "Caso de sesion sin identificador",
        }
    }
}

/// What the header of a session with the given schema and version (each when
/// it is a string, respectively an unsigned integer) is answered: the schema
/// is checked first, then the version.
pub open spec fn header_check(schema: Option<Seq<char>>, version: Option<u64>) -> Result<
    (),
    SessionError,
> {
    if schema != Some(session_schema_text()) {
        Err(SessionError::WrongSchema)
    } else if version != Some(SESSION_VERSION as u64) {
        Err(SessionError::WrongVersion)
    } else {
        Ok(())
    }
}

/// Checks the header of a session: its schema, then its version.
pub fn check_session_header(schema: Option<&str>, version: Option<u64>) -> (r: Result<
    (),
    SessionError,
>)
    ensures
        r == header_check(
            match schema {
                Some(s) => Some(s@),
                None => None,
            },
            version,
        ),
{
    let schema_ok = match schema {
        Some(s) => same_text(s, session_schema()),
        None => false,
    };
    if !schema_ok {
        return Err(SessionError::WrongSchema);
    }
    match version {
        Some(v) => {
            if v == SESSION_VERSION as u64 {
                Ok(())
            } else {
                Err(SessionError::WrongVersion)
            }
        },
        None => Err(SessionError::WrongVersion),
    }
}

/// Checks the identifier of a saved case: it may not be blank (empty once its
/// white space is trimmed).
pub fn check_case_identifier(identifier: &str) -> (r: Result<(), SessionError>)
    ensures
        r is Ok <==> strip(identifier@, CharClass::Space).len() > 0,
        r matches Err(e) ==> e == SessionError::MissingCaseIdentifier,
{
    let v = chars_of(identifier);
    let (lo, hi) = strip_bounds(&v, 0, v.len(), CharClass::Space);
    assert(v@.subrange(0, v@.len() as int) =~= identifier@);
    if lo == hi {
        Err(SessionError::MissingCaseIdentifier)
    } else {
        Ok(())
    }
}

/// The table mode of an imported session: the saved one, or `todo` when none
/// is saved.
pub fn table_mode_or_default(saved: Option<&str>) -> (r: String)
    ensures
        r@ == match saved {
            Some(m) => m@,
            None => "todo"@,
        },
{
    match saved {
        Some(m) => String::from_str(m),
        None => String::from_str("todo"),
    }
}

/// `n` in decimal, with zeros in front up to `width` digits.
pub open spec fn padded_decimal(n: nat, width: nat) -> Seq<char> {
    let d = decimal(n);
    if d.len() >= width {
        d
    } else {
        Seq::new((width - d.len()) as nat, |_i: int| '0') + d
    }
}

/// The identifier of the `counter`-th stored case: `case-` and the counter in
/// at least three digits.
pub open spec fn case_identifier_text(counter: nat) -> Seq<char> {
    "case-"@ + padded_decimal(counter, 3)
}

/// The identifier given to the `counter`-th stored case.
pub fn case_identifier(counter: usize) -> (r: String)
    ensures
        r@ == case_identifier_text(counter as nat),
{
    proof {
        reveal_strlit("case-");
        reveal_strlit("case-00");
        reveal_strlit("case-0");
        reveal_with_fuel(decimal, 3);
        if counter >= 100 {
            lemma_decimal_digits((counter / 100) as nat);
        }
    }
    let mut r = if counter < 10 {
        String::from_str("case-00")
    } else if counter < 100 {
        String::from_str("case-0")
    } else {
        String::from_str("case-")
    };
    let ghost prefix = r@;
    push_decimal(&mut r, counter);
    proof {
        let d = decimal(counter as nat);
        if counter < 10 {
            assert(d.len() == 1);
            assert(prefix =~= "case-"@ + Seq::new(2, |_i: int| '0'));
        } else if counter < 100 {
            assert(d.len() == 2);
            assert(prefix =~= "case-"@ + Seq::new(1, |_i: int| '0'));
        } else {
            assert(d.len() >= 3);
        }
        assert(r@ =~= case_identifier_text(counter as nat));
    }
    r
}

/// A session written by this library is accepted when it is read back: the
/// schema and version it writes pass the header check.
pub proof fn law_written_header_is_accepted()
    ensures
        header_check(Some(session_schema_text()), Some(SESSION_VERSION as u64)) == Ok::<
            (),
            SessionError,
        >(()),
{
}

} // verus!
