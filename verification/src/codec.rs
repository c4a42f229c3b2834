//! The textual record format shared by the wire protocol and the log.
//!
//! A command is a tagged object such as `{"Set":{"key":"k","value":"v"}}`,
//! `{"Get":{"key":"k"}}` or `{"Rm":{"key":"k"}}`; a response is
//! `{"res":true,"info":"..."}`.  String tokens are quoted, with `"` and `\`
//! escaped by a backslash and every other character written as itself, so a
//! record is self-delimiting and records can be concatenated in a log and
//! read back from any record boundary.

use vstd::prelude::*;

use crate::util::{Command, CommandModel, Response, ResponseModel};

verus! {

// ------------------------------------------------------------------
// Encoding, at the specification level.
// ------------------------------------------------------------------

/// One character of a quoted string token: quote and backslash carry an
/// escaping backslash, everything else stands for itself.
pub open spec fn esc_char(c: char) -> Seq<char> {
    if c == '"' || c == '\\' {
        seq!['\\', c]
    } else {
        seq![c]
    }
}

/// A string's characters with quote and backslash escaped.
pub open spec fn esc(s: Seq<char>) -> Seq<char>
    decreases s.len(),
{
    if s.len() == 0 {
        Seq::empty()
    } else {
        esc_char(s[0]) + esc(s.drop_first())
    }
}

/// A quoted string token.
pub open spec fn quoted(s: Seq<char>) -> Seq<char> {
    seq!['"'] + esc(s) + seq!['"']
}

/// The text of one command record.
pub open spec fn encoded_command(c: CommandModel) -> Seq<char> {
    match c {
        CommandModel::Put { key, value } => "{\"Set\":{\"key\":"@ + quoted(key) + ",\"value\":"@
            + quoted(value) + "}}"@,
        CommandModel::Get { key } => "{\"Get\":{\"key\":"@ + quoted(key) + "}}"@,
        CommandModel::Rm { key } => "{\"Rm\":{\"key\":"@ + quoted(key) + "}}"@,
    }
}

/// The text of one response.
pub open spec fn encoded_response(r: ResponseModel) -> Seq<char> {
    "{\"res\":"@ + (if r.res {
        "true"@
    } else {
        "false"@
    }) + ",\"info\":"@ + quoted(r.info) + "}"@
}

/// Escaping distributes over appending one character.
pub proof fn lemma_esc_push(s: Seq<char>, c: char)
    ensures
        esc(s.push(c)) == esc(s) + esc_char(c),
    decreases s.len(),
{
    if s.len() == 0 {
        assert(s.push(c).drop_first() =~= Seq::<char>::empty());
        assert(s.push(c)[0] == c);
        assert(esc(s.push(c)) == esc_char(c) + esc(Seq::<char>::empty()));
        assert(esc_char(c) + esc(Seq::<char>::empty()) =~= esc_char(c));
        assert(s =~= Seq::<char>::empty());
        assert(esc(s) + esc_char(c) =~= esc_char(c));
    } else {
        assert(s.push(c).drop_first() =~= s.drop_first().push(c));
        assert(s.push(c)[0] == s[0]);
        lemma_esc_push(s.drop_first(), c);
        assert(esc(s.push(c)) == esc_char(s[0]) + (esc(s.drop_first()) + esc_char(c)));
        assert(esc_char(s[0]) + (esc(s.drop_first()) + esc_char(c)) =~= (esc_char(s[0]) + esc(
            s.drop_first(),
        )) + esc_char(c));
    }
}

// ------------------------------------------------------------------
// Encoding, executable.
// ------------------------------------------------------------------

/// Appends the characters of a string slice to the output.
pub fn push_str_chars(out: &mut Vec<char>, s: &str)
    ensures
        final(out)@ == old(out)@ + s@,
{
    let ghost out0 = old(out)@;
    let n = s.unicode_len();
    let mut i: usize = 0;
    while i < n
        invariant
            n == s@.len(),
            i <= n,
            out@ == out0 + s@.subrange(0, i as int),
        decreases n - i,
    {
        out.push(s.get_char(i));
        proof {
            assert(out0 + s@.subrange(0, i as int).push(s@[i as int]) =~= out0 + s@.subrange(
                0,
                i + 1 as int,
            ));
        }
        i = i + 1;
    }
    proof {
        assert(out0 + s@.subrange(0, n as int) =~= out0 + s@);
    }
}

/// Appends a quoted string token holding the characters of `s`.
pub fn push_quoted(out: &mut Vec<char>, s: &str)
    ensures
        final(out)@ == old(out)@ + quoted(s@),
{
    let ghost out0 = old(out)@;
    out.push('"');
    let n = s.unicode_len();
    let mut i: usize = 0;
    while i < n
        invariant
            n == s@.len(),
            i <= n,
            out@ == out0 + seq!['"'] + esc(s@.subrange(0, i as int)),
        decreases n - i,
    {
        let c = s.get_char(i);
        if c == '"' || c == '\\' {
            out.push('\\');
        }
        out.push(c);
        proof {
            lemma_esc_push(s@.subrange(0, i as int), c);
            assert(s@.subrange(0, i as int).push(c) =~= s@.subrange(0, i + 1 as int));
            assert(out@ =~= out0 + seq!['"'] + esc(s@.subrange(0, i + 1 as int)));
        }
        i = i + 1;
    }
    out.push('"');
    proof {
        assert(s@.subrange(0, n as int) =~= s@);
        assert(out@ =~= out0 + quoted(s@));
    }
}

/// Appends the text of one command record to the output.
pub fn encode_command_into(out: &mut Vec<char>, cmd: &Command)
    ensures
        final(out)@ == old(out)@ + encoded_command(cmd@),
{
    let ghost out0 = old(out)@;
    match cmd {
        Command::Put { key, value } => {
            push_str_chars(out, "{\"Set\":{\"key\":");
            push_quoted(out, key.as_str());
            push_str_chars(out, ",\"value\":");
            push_quoted(out, value.as_str());
            push_str_chars(out, "}}");
            proof {
                assert(out@ =~= out0 + encoded_command(cmd@));
            }
        },
        Command::Get { key } => {
            push_str_chars(out, "{\"Get\":{\"key\":");
            push_quoted(out, key.as_str());
            push_str_chars(out, "}}");
            proof {
                assert(out@ =~= out0 + encoded_command(cmd@));
            }
        },
        Command::Rm { key } => {
            push_str_chars(out, "{\"Rm\":{\"key\":");
            push_quoted(out, key.as_str());
            push_str_chars(out, "}}");
            proof {
                assert(out@ =~= out0 + encoded_command(cmd@));
            }
        },
    }
}

/// The text of one command record, as a fresh character vector.
pub fn encode_command(cmd: &Command) -> (r: Vec<char>)
    ensures
        r@ == encoded_command(cmd@),
{
    let mut out: Vec<char> = Vec::new();
    encode_command_into(&mut out, cmd);
    out
}

/// Appends the text of one response to the output.
pub fn encode_response_into(out: &mut Vec<char>, resp: &Response)
    ensures
        final(out)@ == old(out)@ + encoded_response(resp@),
{
    let ghost out0 = old(out)@;
    push_str_chars(out, "{\"res\":");
    if resp.res {
        push_str_chars(out, "true");
    } else {
        push_str_chars(out, "false");
    }
    push_str_chars(out, ",\"info\":");
    push_quoted(out, resp.info.as_str());
    push_str_chars(out, "}");
    proof {
        assert(out@ =~= out0 + encoded_response(resp@));
    }
}

/// The text of one response, as a fresh character vector.
pub fn encode_response(resp: &Response) -> (r: Vec<char>)
    ensures
        r@ == encoded_response(resp@),
{
    let mut out: Vec<char> = Vec::new();
    encode_response_into(&mut out, resp);
    out
}

// ------------------------------------------------------------------
// Parsing, at the specification level.
// ------------------------------------------------------------------

/// The text holds `lit` starting at position `i`.
pub open spec fn lit_at(s: Seq<char>, i: int, lit: Seq<char>) -> bool {
    &&& 0 <= i
    &&& i + lit.len() <= s.len()
    &&& s.subrange(i, i + lit.len() as int) == lit
}

/// Reads the body of a quoted string token from position `i`, which stands
/// just after the opening quote; `acc` holds the characters read so far.
/// Yields the unescaped content and the position after the closing quote.
pub open spec fn parse_string_body(s: Seq<char>, i: int, acc: Seq<char>) -> Option<(Seq<char>, int)>
    decreases s.len() - i,
{
    if i < 0 || i >= s.len() {
        None
    } else if s[i] == '"' {
        Some((acc, i + 1))
    } else if s[i] == '\\' {
        if i + 1 < s.len() && (s[i + 1] == '"' || s[i + 1] == '\\') {
            parse_string_body(s, i + 2, acc.push(s[i + 1]))
        } else {
            None
        }
    } else {
        parse_string_body(s, i + 1, acc.push(s[i]))
    }
}

/// Reads a quoted string token starting at position `i`.
pub open spec fn parse_string(s: Seq<char>, i: int) -> Option<(Seq<char>, int)> {
    if 0 <= i < s.len() && s[i] == '"' {
        parse_string_body(s, i + 1, Seq::empty())
    } else {
        None
    }
}

/// Reads one command record starting at position `i`.
pub open spec fn parse_command(s: Seq<char>, i: int) -> Option<(CommandModel, int)> {
    if lit_at(s, i, "{\"Set\":{\"key\":"@) {
        match parse_string(s, i + "{\"Set\":{\"key\":"@.len()) {
            Some((key, j)) => if lit_at(s, j, ",\"value\":"@) {
                match parse_string(s, j + ",\"value\":"@.len()) {
                    Some((value, k)) => if lit_at(s, k, "}}"@) {
                        Some((CommandModel::Put { key, value }, k + "}}"@.len()))
                    } else {
                        None
                    },
                    None => None,
                }
            } else {
                None
            },
            None => None,
        }
    } else if lit_at(s, i, "{\"Get\":{\"key\":"@) {
        match parse_string(s, i + "{\"Get\":{\"key\":"@.len()) {
            Some((key, j)) => if lit_at(s, j, "}}"@) {
                Some((CommandModel::Get { key }, j + "}}"@.len()))
            } else {
                None
            },
            None => None,
        }
    } else if lit_at(s, i, "{\"Rm\":{\"key\":"@) {
        match parse_string(s, i + "{\"Rm\":{\"key\":"@.len()) {
            Some((key, j)) => if lit_at(s, j, "}}"@) {
                Some((CommandModel::Rm { key }, j + "}}"@.len()))
            } else {
                None
            },
            None => None,
        }
    } else {
        None
    }
}

/// Reads one response starting at position `i`.
pub open spec fn parse_response(s: Seq<char>, i: int) -> Option<(ResponseModel, int)> {
    if lit_at(s, i, "{\"res\":true,\"info\":"@) {
        match parse_string(s, i + "{\"res\":true,\"info\":"@.len()) {
            Some((info, j)) => if lit_at(s, j, "}"@) {
                Some((ResponseModel { res: true, info }, j + "}"@.len()))
            } else {
                None
            },
            None => None,
        }
    } else if lit_at(s, i, "{\"res\":false,\"info\":"@) {
        match parse_string(s, i + "{\"res\":false,\"info\":"@.len()) {
            Some((info, j)) => if lit_at(s, j, "}"@) {
                Some((ResponseModel { res: false, info }, j + "}"@.len()))
            } else {
                None
            },
            None => None,
        }
    } else {
        None
    }
}

// ------------------------------------------------------------------
// Round trips: what the encoder writes, the parser reads back, and what
// the parser accepts is exactly an encoder output.
// ------------------------------------------------------------------

/// A literal made of two parts occurs at `i` exactly when the parts occur
/// in turn.
pub proof fn lemma_lit_at_concat(s: Seq<char>, i: int, a: Seq<char>, b: Seq<char>)
    ensures
        lit_at(s, i, a + b) <==> (lit_at(s, i, a) && lit_at(s, i + a.len(), b)),
{
    if lit_at(s, i, a + b) {
        assert forall|t: int| 0 <= t < a.len() implies s.subrange(i, i + a.len() as int)[t]
            == a[t] by {
            assert(s.subrange(i, i + (a + b).len() as int)[t] == (a + b)[t]);
        }
        assert(s.subrange(i, i + a.len() as int) =~= a);
        assert forall|t: int| 0 <= t < b.len() implies s.subrange(
            i + a.len(),
            i + a.len() + b.len() as int,
        )[t] == b[t] by {
            assert(s.subrange(i, i + (a + b).len() as int)[a.len() + t] == (a + b)[a.len() + t]);
        }
        assert(s.subrange(i + a.len(), i + a.len() + b.len() as int) =~= b);
    }
    if lit_at(s, i, a) && lit_at(s, i + a.len(), b) {
        assert forall|t: int| 0 <= t < (a + b).len() implies s.subrange(
            i,
            i + (a + b).len() as int,
        )[t] == (a + b)[t] by {
            if t < a.len() {
                assert(s.subrange(i, i + a.len() as int)[t] == a[t]);
            } else {
                assert(s.subrange(i + a.len(), i + a.len() + b.len() as int)[t - a.len()] == b[t
                    - a.len()]);
            }
        }
        assert(s.subrange(i, i + (a + b).len() as int) =~= a + b);
    }
}

/// Escaping distributes over splitting off the first character.
pub proof fn lemma_esc_cons(c: char, r: Seq<char>)
    ensures
        esc(seq![c] + r) == esc_char(c) + esc(r),
{
    assert((seq![c] + r)[0] == c);
    assert((seq![c] + r).drop_first() =~= r);
    assert((seq![c] + r).len() > 0);
}

/// Reading a string body at an occurrence of an escaped text followed by a
/// closing quote yields exactly that text appended to the accumulator.
pub proof fn lemma_parse_body_encode(s: Seq<char>, j: int, k: Seq<char>, acc: Seq<char>)
    requires
        lit_at(s, j, esc(k) + seq!['"']),
    ensures
        parse_string_body(s, j, acc) == Some((acc + k, j + esc(k).len() + 1)),
    decreases k.len(),
{
    lemma_lit_at_concat(s, j, esc(k), seq!['"']);
    assert(s[j + esc(k).len()] == '"') by {
        assert(s.subrange(j + esc(k).len(), j + esc(k).len() + 1)[0] == seq!['"'][0]);
    }
    if k.len() == 0 {
        assert(esc(k).len() == 0);
        assert(s[j] == '"');
        assert(acc + k =~= acc);
    } else {
        let c = k[0];
        let rest = k.drop_first();
        assert(k =~= seq![c] + rest);
        lemma_esc_cons(c, rest);
        assert(esc(k) == esc_char(c) + esc(rest));
        lemma_lit_at_concat(s, j, esc_char(c), esc(rest));
        assert((esc_char(c) + esc(rest)) + seq!['"'] =~= esc_char(c) + (esc(rest) + seq!['"']));
        lemma_lit_at_concat(s, j, esc_char(c), esc(rest) + seq!['"']);
        if c == '"' || c == '\\' {
            assert(esc_char(c) == seq!['\\', c]);
            assert(s[j] == '\\') by {
                assert(s.subrange(j, j + 2)[0] == seq!['\\', c][0]);
            }
            assert(s[j + 1] == c) by {
                assert(s.subrange(j, j + 2)[1] == seq!['\\', c][1]);
            }
            lemma_parse_body_encode(s, j + 2, rest, acc.push(c));
            assert(acc.push(c) + rest =~= acc + k);
            assert(parse_string_body(s, j, acc) == parse_string_body(s, j + 2, acc.push(c)));
        } else {
            assert(esc_char(c) == seq![c]);
            assert(s[j] == c) by {
                assert(s.subrange(j, j + 1)[0] == seq![c][0]);
            }
            lemma_parse_body_encode(s, j + 1, rest, acc.push(c));
            assert(acc.push(c) + rest =~= acc + k);
            assert(parse_string_body(s, j, acc) == parse_string_body(s, j + 1, acc.push(c)));
        }
    }
}

/// Reading a string token at an occurrence of a quoted text yields exactly
/// that text.
pub proof fn lemma_parse_quoted(s: Seq<char>, i: int, k: Seq<char>)
    requires
        lit_at(s, i, quoted(k)),
    ensures
        parse_string(s, i) == Some((k, i + quoted(k).len())),
{
    assert(quoted(k) =~= seq!['"'] + (esc(k) + seq!['"']));
    lemma_lit_at_concat(s, i, seq!['"'], esc(k) + seq!['"']);
    assert(s[i] == '"') by {
        assert(s.subrange(i, i + 1)[0] == seq!['"'][0]);
    }
    lemma_parse_body_encode(s, i + 1, k, Seq::empty());
    assert(Seq::empty() + k =~= k);
}

/// The lengths of the fixed pieces of the record grammar.  Revealing the
/// literals once here keeps the arithmetic facts available to the round-trip
/// lemmas.
proof fn lemma_grammar_literals()
    ensures
        "{\"Set\":{\"key\":"@.len() == 14,
        "{\"Get\":{\"key\":"@.len() == 14,
        "{\"Rm\":{\"key\":"@.len() == 13,
        ",\"value\":"@.len() == 9,
        "}}"@.len() == 2,
        "{\"res\":"@.len() == 7,
        "true"@.len() == 4,
        "false"@.len() == 5,
        ",\"info\":"@.len() == 8,
        "}"@.len() == 1,
        "{\"res\":true,\"info\":"@.len() == 19,
        "{\"res\":false,\"info\":"@.len() == 20,
        "{\"Set\":{\"key\":"@[2] == 'S',
        "{\"Get\":{\"key\":"@[2] == 'G',
        "{\"Rm\":{\"key\":"@[2] == 'R',
        "{\"res\":true,\"info\":"@[7] == 't',
        "{\"res\":false,\"info\":"@[7] == 'f',
        "{\"res\":"@ + "true"@ + ",\"info\":"@ =~= "{\"res\":true,\"info\":"@,
        "{\"res\":"@ + "false"@ + ",\"info\":"@ =~= "{\"res\":false,\"info\":"@,
{
    reveal_strlit("{\"Set\":{\"key\":");
    reveal_strlit("{\"Get\":{\"key\":");
    reveal_strlit("{\"Rm\":{\"key\":");
    reveal_strlit(",\"value\":");
    reveal_strlit("}}");
    reveal_strlit("{\"res\":");
    reveal_strlit("true");
    reveal_strlit("false");
    reveal_strlit(",\"info\":");
    reveal_strlit("}");
    reveal_strlit("{\"res\":true,\"info\":");
    reveal_strlit("{\"res\":false,\"info\":");
}

/// Reading a command at an occurrence of an encoded command yields exactly
/// that command and stops exactly at its end.
pub proof fn lemma_parse_command_encoded(s: Seq<char>, i: int, c: CommandModel)
    requires
        lit_at(s, i, encoded_command(c)),
    ensures
        parse_command(s, i) == Some((c, i + encoded_command(c).len())),
        i + encoded_command(c).len() <= s.len(),
        encoded_command(c).len() > 0,
{
    lemma_grammar_literals();
    match c {
        CommandModel::Put { key, value } => {
            let a = "{\"Set\":{\"key\":"@;
            let b = ",\"value\":"@;
            let z = "}}"@;
            let e = encoded_command(c);
            assert(e =~= a + (quoted(key) + (b + (quoted(value) + z))));
            lemma_lit_at_concat(s, i, a, quoted(key) + (b + (quoted(value) + z)));
            lemma_lit_at_concat(s, i + a.len(), quoted(key), b + (quoted(value) + z));
            let j = i + a.len() + quoted(key).len();
            lemma_lit_at_concat(s, j, b, quoted(value) + z);
            lemma_lit_at_concat(s, j + b.len(), quoted(value), z);
            lemma_parse_quoted(s, i + a.len(), key);
            lemma_parse_quoted(s, j + b.len(), value);
            assert(s[i + 2] == 'S') by {
                assert(s.subrange(i, i + a.len() as int)[2] == a[2]);
            }
            assert(parse_command(s, i) == Some((c, i + e.len())));
        },
        CommandModel::Get { key } => {
            let a = "{\"Get\":{\"key\":"@;
            let z = "}}"@;
            let e = encoded_command(c);
            assert(e =~= a + (quoted(key) + z));
            lemma_lit_at_concat(s, i, a, quoted(key) + z);
            lemma_lit_at_concat(s, i + a.len(), quoted(key), z);
            lemma_parse_quoted(s, i + a.len(), key);
            assert(s[i + 2] == 'G') by {
                assert(s.subrange(i, i + a.len() as int)[2] == a[2]);
            }
            assert(!lit_at(s, i, "{\"Set\":{\"key\":"@)) by {
                if lit_at(s, i, "{\"Set\":{\"key\":"@) {
                    assert(s.subrange(i, i + 14)[2] == "{\"Set\":{\"key\":"@[2]);
                }
            }
            assert(parse_command(s, i) == Some((c, i + e.len())));
        },
        CommandModel::Rm { key } => {
            let a = "{\"Rm\":{\"key\":"@;
            let z = "}}"@;
            let e = encoded_command(c);
            assert(e =~= a + (quoted(key) + z));
            lemma_lit_at_concat(s, i, a, quoted(key) + z);
            lemma_lit_at_concat(s, i + a.len(), quoted(key), z);
            lemma_parse_quoted(s, i + a.len(), key);
            assert(s[i + 2] == 'R') by {
                assert(s.subrange(i, i + a.len() as int)[2] == a[2]);
            }
            assert(!lit_at(s, i, "{\"Set\":{\"key\":"@)) by {
                if lit_at(s, i, "{\"Set\":{\"key\":"@) {
                    assert(s.subrange(i, i + 14)[2] == "{\"Set\":{\"key\":"@[2]);
                }
            }
            assert(!lit_at(s, i, "{\"Get\":{\"key\":"@)) by {
                if lit_at(s, i, "{\"Get\":{\"key\":"@) {
                    assert(s.subrange(i, i + 14)[2] == "{\"Get\":{\"key\":"@[2]);
                }
            }
            assert(parse_command(s, i) == Some((c, i + e.len())));
        },
    }
}

/// Reading a response at an occurrence of an encoded response yields exactly
/// that response and stops exactly at its end.
pub proof fn lemma_parse_response_encoded(s: Seq<char>, i: int, r: ResponseModel)
    requires
        lit_at(s, i, encoded_response(r)),
    ensures
        parse_response(s, i) == Some((r, i + encoded_response(r).len())),
{
    lemma_grammar_literals();
    let z = "}"@;
    let e = encoded_response(r);
    if r.res {
        let a = "{\"res\":true,\"info\":"@;
        assert(e =~= a + (quoted(r.info) + z));
        lemma_lit_at_concat(s, i, a, quoted(r.info) + z);
        lemma_lit_at_concat(s, i + a.len(), quoted(r.info), z);
        lemma_parse_quoted(s, i + a.len(), r.info);
        assert(parse_response(s, i) == Some((r, i + e.len())));
    } else {
        let a = "{\"res\":false,\"info\":"@;
        assert(e =~= a + (quoted(r.info) + z));
        lemma_lit_at_concat(s, i, a, quoted(r.info) + z);
        lemma_lit_at_concat(s, i + a.len(), quoted(r.info), z);
        lemma_parse_quoted(s, i + a.len(), r.info);
        assert(s[i + 7] == 'f') by {
            assert(s.subrange(i, i + a.len() as int)[7] == a[7]);
        }
        assert(!lit_at(s, i, "{\"res\":true,\"info\":"@)) by {
            if lit_at(s, i, "{\"res\":true,\"info\":"@) {
                assert(s.subrange(i, i + 19)[7] == "{\"res\":true,\"info\":"@[7]);
            }
        }
        assert(parse_response(s, i) == Some((r, i + e.len())));
    }
}

/// A string body that reads back successfully is exactly an escaped text
/// followed by the closing quote.
pub proof fn lemma_parse_body_canonical(s: Seq<char>, j: int, acc: Seq<char>)
    requires
        parse_string_body(s, j, acc) is Some,
    ensures
        ({
            let (t, end) = parse_string_body(s, j, acc)->0;
            &&& acc.len() <= t.len()
            &&& t.subrange(0, acc.len() as int) == acc
            &&& j < end <= s.len()
            &&& s.subrange(j, end) == esc(t.skip(acc.len() as int)) + seq!['"']
        }),
    decreases s.len() - j,
{
    let (t, end) = parse_string_body(s, j, acc)->0;
    if s[j] == '"' {
        assert(t == acc && end == j + 1);
        assert(t.subrange(0, acc.len() as int) =~= acc);
        assert(t.skip(acc.len() as int) =~= Seq::<char>::empty());
        assert(s.subrange(j, end) =~= esc(t.skip(acc.len() as int)) + seq!['"']);
    } else if s[j] == '\\' {
        let d = s[j + 1];
        lemma_parse_body_canonical(s, j + 2, acc.push(d));
        assert(t.subrange(0, acc.push(d).len() as int) == acc.push(d));
        assert forall|u: int| 0 <= u < acc.len() implies t.subrange(0, acc.len() as int)[u]
            == acc[u] by {
            assert(t.subrange(0, acc.len() as int + 1)[u] == acc.push(d)[u]);
        }
        assert(t.subrange(0, acc.len() as int) =~= acc);
        assert(t[acc.len() as int] == d) by {
            assert(t.subrange(0, acc.len() as int + 1)[acc.len() as int] == acc.push(d)[acc.len() as int]);
        }
        assert(t.skip(acc.len() as int) =~= seq![d] + t.skip(acc.len() as int + 1));
        lemma_esc_cons(d, t.skip(acc.len() as int + 1));
        assert(esc_char(d) == seq!['\\', d]);
        assert forall|u: int| 0 <= u < end - j implies s.subrange(j, end)[u] == (seq!['\\', d]
            + (esc(t.skip(acc.len() as int + 1)) + seq!['"']))[u] by {
            if u >= 2 {
                assert(s.subrange(j + 2, end)[u - 2] == (esc(t.skip(acc.len() as int + 1))
                    + seq!['"'])[u - 2]);
            }
        }
        assert(s.subrange(j, end) =~= seq!['\\', d] + (esc(t.skip(acc.len() as int + 1))
            + seq!['"']));
        assert(esc(t.skip(acc.len() as int)) + seq!['"'] =~= seq!['\\', d] + (esc(
            t.skip(acc.len() as int + 1),
        ) + seq!['"']));
    } else {
        let d = s[j];
        lemma_parse_body_canonical(s, j + 1, acc.push(d));
        assert(t.subrange(0, acc.push(d).len() as int) == acc.push(d));
        assert forall|u: int| 0 <= u < acc.len() implies t.subrange(0, acc.len() as int)[u]
            == acc[u] by {
            assert(t.subrange(0, acc.len() as int + 1)[u] == acc.push(d)[u]);
        }
        assert(t.subrange(0, acc.len() as int) =~= acc);
        assert(t[acc.len() as int] == d) by {
            assert(t.subrange(0, acc.len() as int + 1)[acc.len() as int] == acc.push(d)[acc.len() as int]);
        }
        assert(t.skip(acc.len() as int) =~= seq![d] + t.skip(acc.len() as int + 1));
        lemma_esc_cons(d, t.skip(acc.len() as int + 1));
        assert(esc_char(d) == seq![d]);
        assert forall|u: int| 0 <= u < end - j implies s.subrange(j, end)[u] == (seq![d] + (esc(
            t.skip(acc.len() as int + 1),
        ) + seq!['"']))[u] by {
            if u >= 1 {
                assert(s.subrange(j + 1, end)[u - 1] == (esc(t.skip(acc.len() as int + 1))
                    + seq!['"'])[u - 1]);
            }
        }
        assert(s.subrange(j, end) =~= seq![d] + (esc(t.skip(acc.len() as int + 1)) + seq!['"']));
        assert(esc(t.skip(acc.len() as int)) + seq!['"'] =~= seq![d] + (esc(
            t.skip(acc.len() as int + 1),
        ) + seq!['"']));
    }
}

/// A string token that reads back successfully stands in the text as exactly
/// the quoted form of its content.
pub proof fn lemma_parse_string_canonical(s: Seq<char>, i: int)
    requires
        parse_string(s, i) is Some,
    ensures
        ({
            let (t, end) = parse_string(s, i)->0;
            &&& i < end <= s.len()
            &&& end == i + quoted(t).len()
            &&& lit_at(s, i, quoted(t))
        }),
{
    let (t, end) = parse_string(s, i)->0;
    lemma_parse_body_canonical(s, i + 1, Seq::empty());
    assert(t.skip(0) =~= t);
    assert(quoted(t) =~= seq!['"'] + (esc(t) + seq!['"']));
    assert forall|u: int| 0 <= u < end - i implies s.subrange(i, end)[u] == (seq!['"'] + (esc(t)
        + seq!['"']))[u] by {
        if u == 0 {
            assert(s.subrange(i, end)[0] == s[i]);
        } else {
            assert(s.subrange(i + 1, end)[u - 1] == (esc(t) + seq!['"'])[u - 1]);
        }
    }
    assert(s.subrange(i, end) =~= seq!['"'] + (esc(t) + seq!['"']));
}

/// A command that reads back successfully stands in the text as exactly its
/// encoding, and the reader stops exactly at its end.
pub proof fn lemma_parse_command_canonical(s: Seq<char>, i: int)
    requires
        parse_command(s, i) is Some,
    ensures
        ({
            let (c, end) = parse_command(s, i)->0;
            &&& i < end <= s.len()
            &&& end == i + encoded_command(c).len()
            &&& lit_at(s, i, encoded_command(c))
        }),
{
    lemma_grammar_literals();
    let (c, end) = parse_command(s, i)->0;
    if lit_at(s, i, "{\"Set\":{\"key\":"@) {
        let a = "{\"Set\":{\"key\":"@;
        let b = ",\"value\":"@;
        let z = "}}"@;
        let p = i + a.len();
        let (key, j) = parse_string(s, p)->0;
        lemma_parse_string_canonical(s, p);
        let q = j + b.len();
        let (value, k) = parse_string(s, q)->0;
        lemma_parse_string_canonical(s, q);
        lemma_lit_at_concat(s, q, quoted(value), z);
        lemma_lit_at_concat(s, j, b, quoted(value) + z);
        lemma_lit_at_concat(s, p, quoted(key), b + (quoted(value) + z));
        lemma_lit_at_concat(s, i, a, quoted(key) + (b + (quoted(value) + z)));
        assert(encoded_command(c) =~= a + (quoted(key) + (b + (quoted(value) + z))));
    } else if lit_at(s, i, "{\"Get\":{\"key\":"@) {
        let a = "{\"Get\":{\"key\":"@;
        let z = "}}"@;
        let p = i + a.len();
        let (key, j) = parse_string(s, p)->0;
        lemma_parse_string_canonical(s, p);
        lemma_lit_at_concat(s, p, quoted(key), z);
        lemma_lit_at_concat(s, i, a, quoted(key) + z);
        assert(encoded_command(c) =~= a + (quoted(key) + z));
    } else {
        let a = "{\"Rm\":{\"key\":"@;
        let z = "}}"@;
        let p = i + a.len();
        let (key, j) = parse_string(s, p)->0;
        lemma_parse_string_canonical(s, p);
        lemma_lit_at_concat(s, p, quoted(key), z);
        lemma_lit_at_concat(s, i, a, quoted(key) + z);
        assert(encoded_command(c) =~= a + (quoted(key) + z));
    }
}

/// Reading back an encoded command yields the command (the round trip).
pub proof fn lemma_command_round_trip(c: CommandModel)
    ensures
        parse_command(encoded_command(c), 0) == Some(
            (c, encoded_command(c).len() as int),
        ),
{
    let e = encoded_command(c);
    assert(e.subrange(0, e.len() as int) =~= e);
    lemma_parse_command_encoded(e, 0, c);
}

/// Reading back an encoded response yields the response (the round trip).
pub proof fn lemma_response_round_trip(r: ResponseModel)
    ensures
        parse_response(encoded_response(r), 0) == Some(
            (r, encoded_response(r).len() as int),
        ),
{
    let e = encoded_response(r);
    assert(e.subrange(0, e.len() as int) =~= e);
    lemma_parse_response_encoded(e, 0, r);
}

// ------------------------------------------------------------------
// Parsing, executable.
// ------------------------------------------------------------------

/// Whether the text holds the characters of `pat` starting at position `i`.
pub fn match_lit(s: &Vec<char>, i: usize, pat: &str) -> (b: bool)
    ensures
        b == lit_at(s@, i as int, pat@),
{
    let n = pat.unicode_len();
    let len = s.len();
    if i > len || n > len - i {
        return false;
    }
    let mut k: usize = 0;
    while k < n
        invariant
            n == pat@.len(),
            len == s@.len(),
            i + n <= len,
            k <= n,
            forall|t: int| 0 <= t < k ==> s@[i + t] == pat@[t],
        decreases n - k,
    {
        if s[i + k] != pat.get_char(k) {
            proof {
                if s@.subrange(i as int, i as int + pat@.len() as int) == pat@ {
                    assert(s@.subrange(i as int, i as int + pat@.len() as int)[k as int] == s@[i
                        + k]);
                }
            }
            return false;
        }
        k = k + 1;
    }
    proof {
        assert(s@.subrange(i as int, i as int + pat@.len() as int) =~= pat@);
    }
    true
}

/// The position just after an occurrence of `pat` at position `i`.
pub(crate) fn lit_end(s: &Vec<char>, i: usize, pat: &str) -> (r: usize)
    requires
        lit_at(s@, i as int, pat@),
    ensures
        r as int == i as int + pat@.len(),
        r <= s@.len(),
{
    let n = pat.unicode_len();
    let len = s.len();
    i + n
}

/// Reads a quoted string token starting at position `i` and yields its
/// unescaped content and the position after the closing quote.
pub fn parse_string_at(s: &Vec<char>, i: usize) -> (r: Option<(String, usize)>)
    ensures
        match r {
            Some((t, end)) => parse_string(s@, i as int) == Some((t@, end as int)) && i < end
                <= s@.len(),
            None => parse_string(s@, i as int) is None,
        },
{
    if i >= s.len() {
        return None;
    }
    if s[i] != '"' {
        return None;
    }
    let mut acc = String::new();
    let mut j: usize = i + 1;
    loop
        invariant
            i + 1 <= j <= s@.len(),
            i < s@.len(),
            s@[i as int] == '"',
            parse_string_body(s@, i as int + 1, Seq::empty()) == parse_string_body(
                s@,
                j as int,
                acc@,
            ),
        decreases s@.len() - j,
    {
        if j >= s.len() {
            assert(parse_string_body(s@, j as int, acc@) is None);
            return None;
        }
        let c = s[j];
        if c == '"' {
            assert(parse_string_body(s@, j as int, acc@) == Some((acc@, j as int + 1)));
            return Some((acc, j + 1));
        } else if c == '\\' {
            if j + 1 >= s.len() {
                assert(parse_string_body(s@, j as int, acc@) is None);
                return None;
            }
            let d = s[j + 1];
            if d == '"' || d == '\\' {
                assert(parse_string_body(s@, j as int, acc@) == parse_string_body(
                    s@,
                    j as int + 2,
                    acc@.push(d),
                ));
                acc.push(d);
                j = j + 2;
            } else {
                assert(parse_string_body(s@, j as int, acc@) is None);
                return None;
            }
        } else {
            assert(parse_string_body(s@, j as int, acc@) == parse_string_body(
                s@,
                j as int + 1,
                acc@.push(c),
            ));
            acc.push(c);
            j = j + 1;
        }
    }
}

/// Reads one command record starting at position `i`.
pub fn parse_command_at(s: &Vec<char>, i: usize) -> (r: Option<(Command, usize)>)
    ensures
        match r {
            Some((c, end)) => parse_command(s@, i as int) == Some((c@, end as int)) && i < end
                <= s@.len(),
            None => parse_command(s@, i as int) is None,
        },
{
    if match_lit(s, i, "{\"Set\":{\"key\":") {
        let p = lit_end(s, i, "{\"Set\":{\"key\":");
        match parse_string_at(s, p) {
            Some((key, j)) => {
                if match_lit(s, j, ",\"value\":") {
                    let q = lit_end(s, j, ",\"value\":");
                    match parse_string_at(s, q) {
                        Some((value, k)) => {
                            if match_lit(s, k, "}}") {
                                let end = lit_end(s, k, "}}");
                                Some((Command::Put { key, value }, end))
                            } else {
                                None
                            }
                        },
                        None => None,
                    }
                } else {
                    None
                }
            },
            None => None,
        }
    } else if match_lit(s, i, "{\"Get\":{\"key\":") {
        let p = lit_end(s, i, "{\"Get\":{\"key\":");
        match parse_string_at(s, p) {
            Some((key, j)) => {
                if match_lit(s, j, "}}") {
                    let end = lit_end(s, j, "}}");
                    Some((Command::Get { key }, end))
                } else {
                    None
                }
            },
            None => None,
        }
    } else if match_lit(s, i, "{\"Rm\":{\"key\":") {
        let p = lit_end(s, i, "{\"Rm\":{\"key\":");
        match parse_string_at(s, p) {
            Some((key, j)) => {
                if match_lit(s, j, "}}") {
                    let end = lit_end(s, j, "}}");
                    Some((Command::Rm { key }, end))
                } else {
                    None
                }
            },
            None => None,
        }
    } else {
        None
    }
}

/// Reads one response starting at position `i`.
pub fn parse_response_at(s: &Vec<char>, i: usize) -> (r: Option<(Response, usize)>)
    ensures
        match r {
            Some((resp, end)) => parse_response(s@, i as int) == Some((resp@, end as int)) && i
                < end <= s@.len(),
            None => parse_response(s@, i as int) is None,
        },
{
    if match_lit(s, i, "{\"res\":true,\"info\":") {
        let p = lit_end(s, i, "{\"res\":true,\"info\":");
        match parse_string_at(s, p) {
            Some((info, j)) => {
                if match_lit(s, j, "}") {
                    let end = lit_end(s, j, "}");
                    Some((Response { res: true, info }, end))
                } else {
                    None
                }
            },
            None => None,
        }
    } else if match_lit(s, i, "{\"res\":false,\"info\":") {
        let p = lit_end(s, i, "{\"res\":false,\"info\":");
        match parse_string_at(s, p) {
            Some((info, j)) => {
                if match_lit(s, j, "}") {
                    let end = lit_end(s, j, "}");
                    Some((Response { res: false, info }, end))
                } else {
                    None
                }
            },
            None => None,
        }
    } else {
        None
    }
}

} // verus!
