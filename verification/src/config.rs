//! Engine selection and the pinning sidecar document.
//!
//! A store directory is written by one engine.  The first server run pins
//! its resolved choice into a sidecar document `{"engine_type":"kvs"}` (or
//! `"sled"`); later runs must ask for the same engine, or for the default.
//! Reading and writing the sidecar file is the caller's business; this
//! module decides and carries the document's text.

use vstd::prelude::*;

use crate::codec::{lit_at, lit_end, match_lit, parse_string, parse_string_at, push_quoted,
    push_str_chars, quoted, lemma_parse_quoted, lemma_lit_at_concat};
use crate::error::KvsError;
use crate::strings::{chars_to_string, str_to_chars};

verus! {

/// Which storage engine a server runs.
#[derive(Debug, Clone, Copy, PartialEq, Eq, Structural)]
pub enum EngineType {
    /// The log-structured engine of this crate.
    KVS,
    /// The sled-backed engine.
    SLED,
    /// No explicit choice: whatever the store was pinned to, or the log
    /// engine for a fresh store.
    DEFAULT,
}

/// The engine a server must run, given the pinned choice (`DEFAULT` when no
/// sidecar exists) and the requested one (`DEFAULT` when none was named):
/// an explicit choice wins over `DEFAULT`, two defaults mean the log
/// engine, and two different explicit choices are a conflict.
pub open spec fn resolved_engine(local: EngineType, requested: EngineType) -> Option<EngineType> {
    match (local, requested) {
        (EngineType::KVS, EngineType::KVS) => Some(EngineType::KVS),
        (EngineType::KVS, EngineType::DEFAULT) => Some(EngineType::KVS),
        (EngineType::DEFAULT, EngineType::KVS) => Some(EngineType::KVS),
        (EngineType::DEFAULT, EngineType::DEFAULT) => Some(EngineType::KVS),
        (EngineType::SLED, EngineType::SLED) => Some(EngineType::SLED),
        (EngineType::SLED, EngineType::DEFAULT) => Some(EngineType::SLED),
        (EngineType::DEFAULT, EngineType::SLED) => Some(EngineType::SLED),
        (EngineType::KVS, EngineType::SLED) => None,
        (EngineType::SLED, EngineType::KVS) => None,
    }
}

/// Resolves the engine choice; a conflict between the pinned engine and the
/// requested one is an `UnexpectedConfig` error.
pub fn resolve_engine(local: EngineType, requested: EngineType) -> (r: Result<
    EngineType,
    KvsError,
>)
    ensures
        r matches Ok(e) ==> resolved_engine(local, requested) == Some(e),
        r is Err <==> resolved_engine(local, requested) is None,
        r matches Err(e) ==> e matches KvsError::UnexpectedConfig,
{
    match (local, requested) {
        (EngineType::KVS, EngineType::SLED) => Err(KvsError::UnexpectedConfig),
        (EngineType::SLED, EngineType::KVS) => Err(KvsError::UnexpectedConfig),
        (EngineType::SLED, _) => Ok(EngineType::SLED),
        (EngineType::DEFAULT, EngineType::SLED) => Ok(EngineType::SLED),
        (_, _) => Ok(EngineType::KVS),
    }
}

/// Engine pinning: a store pinned to one explicit engine refuses to start
/// with the other explicit engine.
pub proof fn lemma_engine_pinning(pinned: EngineType, requested: EngineType)
    requires
        pinned != requested,
        pinned != EngineType::DEFAULT,
        requested != EngineType::DEFAULT,
    ensures
        resolved_engine(pinned, requested) is None,
{
}

/// The name an engine goes by in the sidecar document.
pub open spec fn engine_name(e: EngineType) -> Seq<char> {
    match e {
        EngineType::KVS => "kvs"@,
        EngineType::SLED => "sled"@,
        EngineType::DEFAULT => "default"@,
    }
}

/// The sidecar document pinning an engine.
pub open spec fn encoded_config(e: EngineType) -> Seq<char> {
    "{\"engine_type\":"@ + quoted(engine_name(e)) + "}"@
}

/// The engine a name denotes; the upper-case spellings are accepted too.
pub open spec fn name_to_engine(name: Seq<char>) -> Option<EngineType> {
    if name == "kvs"@ || name == "KVS"@ {
        Some(EngineType::KVS)
    } else if name == "sled"@ || name == "SLED"@ {
        Some(EngineType::SLED)
    } else if name == "default"@ || name == "DEFAULT"@ {
        Some(EngineType::DEFAULT)
    } else {
        None
    }
}

/// The engine a whole sidecar document pins, if it is well-formed.
pub open spec fn parse_config(s: Seq<char>) -> Option<EngineType> {
    if lit_at(s, 0, "{\"engine_type\":"@) {
        match parse_string(s, "{\"engine_type\":"@.len() as int) {
            Some((name, j)) => if lit_at(s, j, "}"@) && j + 1 == s.len() {
                name_to_engine(name)
            } else {
                None
            },
            None => None,
        }
    } else {
        None
    }
}

/// The text of the sidecar document pinning `e`.
pub fn encode_config(e: EngineType) -> (r: String)
    ensures
        r@ == encoded_config(e),
{
    let mut out: Vec<char> = Vec::new();
    push_str_chars(&mut out, "{\"engine_type\":");
    match e {
        EngineType::KVS => push_quoted(&mut out, "kvs"),
        EngineType::SLED => push_quoted(&mut out, "sled"),
        EngineType::DEFAULT => push_quoted(&mut out, "default"),
    }
    push_str_chars(&mut out, "}");
    proof {
        assert(out@ =~= encoded_config(e));
    }
    chars_to_string(&out)
}

/// Reads the engine a sidecar document pins, if it is well-formed.
pub fn parse_config_text(text: &str) -> (r: Option<EngineType>)
    ensures
        r == parse_config(text@),
{
    let chars = str_to_chars(text);
    if !match_lit(&chars, 0, "{\"engine_type\":") {
        return None;
    }
    let p = lit_end(&chars, 0, "{\"engine_type\":");
    let len = chars.len();
    match parse_string_at(&chars, p) {
        Some((name, j)) => {
            proof {
                reveal_strlit("}");
            }
            if match_lit(&chars, j, "}") && j + 1 == len {
                if name.eq(&"kvs".to_owned()) || name.eq(&"KVS".to_owned()) {
                    Some(EngineType::KVS)
                } else if name.eq(&"sled".to_owned()) || name.eq(&"SLED".to_owned()) {
                    Some(EngineType::SLED)
                } else if name.eq(&"default".to_owned()) || name.eq(&"DEFAULT".to_owned()) {
                    Some(EngineType::DEFAULT)
                } else {
                    None
                }
            } else {
                None
            }
        },
        None => None,
    }
}

/// The sidecar document reads back as the engine it pins (the round trip).
pub proof fn lemma_config_round_trip(e: EngineType)
    ensures
        parse_config(encoded_config(e)) == Some(e),
{
    reveal_strlit("{\"engine_type\":");
    reveal_strlit("}");
    reveal_strlit("kvs");
    reveal_strlit("KVS");
    reveal_strlit("sled");
    reveal_strlit("SLED");
    reveal_strlit("default");
    reveal_strlit("DEFAULT");
    let a = "{\"engine_type\":"@;
    let q = quoted(engine_name(e));
    let z = "}"@;
    let s = encoded_config(e);
    assert(s =~= a + (q + z));
    assert(s.subrange(0, s.len() as int) =~= s);
    lemma_lit_at_concat(s, 0, a, q + z);
    lemma_lit_at_concat(s, a.len() as int, q, z);
    lemma_parse_quoted(s, a.len() as int, engine_name(e));
}

} // verus!
