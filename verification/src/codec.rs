//! Wire codec for client requests.
//!
//! A request travels as one self-describing, tagged, human-readable
//! payload: a JSON object in canonical form, without insignificant
//! whitespace, whose fields come in a fixed order:
//!
//! ```text
//! {"kind":"Highlight","session":S,"buffer":B,"language":L,"path":P}
//! ```
//!
//! where `S`, `B`, `L` and `P` are quoted strings in which `"` and `\` are
//! escaped with a backslash. `decode` is exact: any other payload is a
//! `DecodeError`, including an object whose `kind` names no known request.
//! Encoding and decoding are each specified against the spec-level
//! `encode_spec` / `decode_spec`, and `lemma_round_trip` proves that
//! decoding an encoded request always gives the request back.

use vstd::prelude::*;

verus! {

/// A decoded client request. `Highlight` asks the daemon to parse the
/// buffer content found at `path` with the grammar named by `language` and
/// to cache the tree under (`session`, `buffer`).
#[derive(Debug, PartialEq, Eq)]
pub enum Request {
    Highlight { session: String, buffer: String, language: String, path: String },
}

/// Mathematical model of a request: the four fields as character
/// sequences.
pub struct RequestView {
    pub session: Seq<char>,
    pub buffer: Seq<char>,
    pub language: Seq<char>,
    pub path: Seq<char>,
}

impl View for Request {
    type V = RequestView;

    open spec fn view(&self) -> RequestView {
        match self {
            Request::Highlight { session, buffer, language, path } => RequestView {
                session: session@,
                buffer: buffer@,
                language: language@,
                path: path@,
            },
        }
    }
}

/// A payload that does not decode. It carries the offending payload back
/// to the caller, which logs it and keeps serving.
#[derive(Debug)]
pub struct DecodeError {
    /// The payload as it came in.
    pub payload: String,
    /// A short description of what went wrong.
    pub reason: String,
}

// ---------------------------------------------------------------------
// The wire form, spec level.
// ---------------------------------------------------------------------

/// Opening of the envelope up to the quote that starts the kind tag.
pub open spec fn l_kind() -> Seq<char> {
    "{\"kind\":\""@
}

/// The one kind of request the protocol knows today.
pub open spec fn kind_name() -> Seq<char> {
    "Highlight"@
}

/// Separator between the kind tag and the session field.
pub open spec fn l_session() -> Seq<char> {
    ",\"session\":\""@
}

/// Separator between the session and buffer fields.
pub open spec fn l_buffer() -> Seq<char> {
    ",\"buffer\":\""@
}

/// Separator between the buffer and language fields.
pub open spec fn l_language() -> Seq<char> {
    ",\"language\":\""@
}

/// Separator between the language and path fields.
pub open spec fn l_path() -> Seq<char> {
    ",\"path\":\""@
}

/// The closing quote of a field value.
pub open spec fn qt() -> Seq<char> {
    "\""@
}

/// The closing brace of the envelope.
pub open spec fn l_close() -> Seq<char> {
    "}"@
}

/// How one character of a field value appears on the wire.
pub open spec fn escape1(c: char) -> Seq<char> {
    if c == '"' || c == '\\' {
        seq!['\\', c]
    } else {
        seq![c]
    }
}

/// How a whole field value appears on the wire.
pub open spec fn escape(s: Seq<char>) -> Seq<char>
    decreases s.len(),
{
    if s.len() == 0 {
        Seq::empty()
    } else {
        escape1(s[0]) + escape(s.skip(1))
    }
}

/// The exact wire form of a request.
pub open spec fn encode_spec(r: RequestView) -> Seq<char> {
    l_kind() + kind_name() + qt() + l_session() + escape(r.session) + qt() + l_buffer() + escape(
        r.buffer,
    ) + qt() + l_language() + escape(r.language) + qt() + l_path() + escape(r.path) + qt()
        + l_close()
}

// ---------------------------------------------------------------------
// Parsing, spec level.
// ---------------------------------------------------------------------

/// Consumes the literal `lit` at position `i`, yielding the position after
/// it, or nothing if `s` does not carry `lit` there.
pub open spec fn parse_exact(s: Seq<char>, i: int, lit: Seq<char>) -> Option<int> {
    if 0 <= i && i + lit.len() <= s.len() && s.subrange(i, i + lit.len() as int) == lit {
        Some(i + lit.len() as int)
    } else {
        None
    }
}

/// Consumes a quoted string's body starting at position `i` (just past the
/// opening quote) up to and including its closing quote, yielding the
/// unescaped value and the position after the quote. Only `\"` and `\\`
/// are valid escapes; a payload that ends inside the string, or uses any
/// other escape, does not parse.
pub open spec fn parse_str_body(s: Seq<char>, i: int) -> Option<(Seq<char>, int)>
    decreases s.len() - i,
{
    if i < 0 || i >= s.len() {
        None
    } else if s[i] == '"' {
        Some((Seq::empty(), i + 1))
    } else if s[i] == '\\' {
        if i + 1 < s.len() && (s[i + 1] == '"' || s[i + 1] == '\\') {
            match parse_str_body(s, i + 2) {
                Some((f, j)) => Some((seq![s[i + 1]] + f, j)),
                None => None,
            }
        } else {
            None
        }
    } else {
        match parse_str_body(s, i + 1) {
            Some((f, j)) => Some((seq![s[i]] + f, j)),
            None => None,
        }
    }
}

/// The value a payload decodes to, if any: the envelope's literals and the
/// five quoted strings in order, the kind tag equal to `Highlight`, and
/// nothing after the closing brace.
pub open spec fn decode_spec(s: Seq<char>) -> Option<RequestView> {
    match parse_exact(s, 0, l_kind()) {
        None => None,
        Some(i1) => match parse_str_body(s, i1) {
            None => None,
            Some((kind, i2)) => if kind != kind_name() {
                None
            } else {
                match parse_exact(s, i2, l_session()) {
                    None => None,
                    Some(i3) => match parse_str_body(s, i3) {
                        None => None,
                        Some((session, i4)) => match parse_exact(s, i4, l_buffer()) {
                            None => None,
                            Some(i5) => match parse_str_body(s, i5) {
                                None => None,
                                Some((buffer, i6)) => match parse_exact(s, i6, l_language()) {
                                    None => None,
                                    Some(i7) => match parse_str_body(s, i7) {
                                        None => None,
                                        Some((language, i8)) => match parse_exact(s, i8, l_path()) {
                                            None => None,
                                            Some(i9) => match parse_str_body(s, i9) {
                                                None => None,
                                                Some((path, i10)) => match parse_exact(
                                                    s,
                                                    i10,
                                                    l_close(),
                                                ) {
                                                    None => None,
                                                    Some(i11) => if i11 == s.len() {
                                                        Some(
                                                            RequestView {
                                                                session,
                                                                buffer,
                                                                language,
                                                                path,
                                                            },
                                                        )
                                                    } else {
                                                        None
                                                    },
                                                },
                                            },
                                        },
                                    },
                                },
                            },
                        },
                    },
                }
            },
        },
    }
}

// ---------------------------------------------------------------------
// Executable encoding.
// ---------------------------------------------------------------------

/// Relies on std's `String::push`: appends the given character to the end
/// of the string.
#[verifier::external_body]
fn push_char(s: &mut String, c: char)
    ensures
        final (s)@ == old(s)@.push(c),
{
    s.push(c);
}

/// Collects the characters of a string slice into a vector.
fn str_to_chars(s: &str) -> (v: Vec<char>)
    ensures
        v@ == s@,
{
    let n = s.unicode_len();
    let mut v: Vec<char> = Vec::new();
    let mut i: usize = 0;
    while i < n
        invariant
            i <= n,
            n == s@.len(),
            v@ == s@.subrange(0, i as int),
        decreases n - i,
    {
        let c = s.get_char(i);
        v.push(c);
        proof {
            assert(v@ =~= s@.subrange(0, i + 1 as int));
        }
        i = i + 1;
    }
    proof {
        assert(v@ =~= s@);
    }
    v
}

/// Escaping one more character extends the escaped form by that
/// character's wire form.
proof fn lemma_escape_push(s: Seq<char>, c: char)
    ensures
        escape(s.push(c)) == escape(s) + escape1(c),
    decreases s.len(),
{
    assert(escape(Seq::<char>::empty()) == Seq::<char>::empty());
    if s.len() == 0 {
        assert(s.push(c).skip(1) =~= Seq::<char>::empty());
        assert(s.push(c)[0] == c);
        assert(escape(s.push(c)) == escape1(c) + escape(Seq::<char>::empty()));
        assert(escape(s.push(c)) =~= escape(s) + escape1(c));
    } else {
        assert(s.push(c).skip(1) =~= s.skip(1).push(c));
        assert(s.push(c)[0] == s[0]);
        lemma_escape_push(s.skip(1), c);
        assert(escape(s.push(c)) == escape1(s[0]) + (escape(s.skip(1)) + escape1(c)));
        assert(escape(s.push(c)) =~= escape(s) + escape1(c));
    }
}

/// Appends the wire form of `f` to `out`.
fn append_escaped(out: &mut String, f: &str)
    ensures
        final (out)@ == old(out)@ + escape(f@),
{
    let v = str_to_chars(f);
    let mut k: usize = 0;
    proof {
        assert(f@.subrange(0, 0) =~= Seq::<char>::empty());
    }
    while k < v.len()
        invariant
            k <= v.len(),
            v@ == f@,
            out@ == old(out)@ + escape(f@.subrange(0, k as int)),
        decreases v.len() - k,
    {
        let c = v[k];
        proof {
            lemma_escape_push(f@.subrange(0, k as int), f@[k as int]);
            assert(f@.subrange(0, k + 1 as int) =~= f@.subrange(0, k as int).push(f@[k as int]));
        }
        if c == '"' || c == '\\' {
            push_char(out, '\\');
            push_char(out, c);
        } else {
            push_char(out, c);
        }
        proof {
            assert(out@ =~= old(out)@ + escape(f@.subrange(0, k + 1 as int)));
        }
        k = k + 1;
    }
    proof {
        assert(f@.subrange(0, v@.len() as int) =~= f@);
    }
}

/// Encodes a request into its wire form.
pub fn encode(r: &Request) -> (out: String)
    ensures
        out@ == encode_spec(r@),
{
    let Request::Highlight { session, buffer, language, path } = r;
    let mut out = "{\"kind\":\"".to_owned();
    out.append("Highlight");
    out.append("\"");
    out.append(",\"session\":\"");
    append_escaped(&mut out, session.as_str());
    out.append("\"");
    out.append(",\"buffer\":\"");
    append_escaped(&mut out, buffer.as_str());
    out.append("\"");
    out.append(",\"language\":\"");
    append_escaped(&mut out, language.as_str());
    out.append("\"");
    out.append(",\"path\":\"");
    append_escaped(&mut out, path.as_str());
    out.append("\"");
    out.append("}");
    out
}

// ---------------------------------------------------------------------
// The round-trip law.
// ---------------------------------------------------------------------

/// A literal standing at the head of the remaining input parses, and
/// leaves exactly the rest.
proof fn lemma_parse_exact_prefix(s: Seq<char>, i: int, lit: Seq<char>, rest: Seq<char>)
    requires
        0 <= i <= s.len(),
        s.subrange(i, s.len() as int) == lit + rest,
    ensures
        i + lit.len() <= s.len(),
        parse_exact(s, i, lit) == Some(i + lit.len() as int),
        s.subrange(i + lit.len() as int, s.len() as int) == rest,
{
    let t = s.subrange(i, s.len() as int);
    assert(t.len() == lit.len() + rest.len());
    assert(s.subrange(i, i + lit.len() as int) =~= lit);
    lemma_suffix_shift(s, i, lit.len() as int);
    assert(t.skip(lit.len() as int) =~= rest);
}

/// Sequence concatenation regroups freely.
proof fn lemma_assoc(x: Seq<char>, y: Seq<char>, z: Seq<char>)
    ensures
        (x + y) + z == x + (y + z),
{
    assert((x + y) + z =~= x + (y + z));
}

/// The suffix of `s` starting `a` places further along is the suffix of
/// the suffix.
proof fn lemma_suffix_shift(s: Seq<char>, i: int, a: int)
    requires
        0 <= i,
        0 <= a,
        i + a <= s.len(),
    ensures
        s.subrange(i + a, s.len() as int) == s.subrange(i, s.len() as int).skip(a),
{
    assert(s.subrange(i + a, s.len() as int) =~= s.subrange(i, s.len() as int).skip(a));
}

/// A field value in its wire form, followed by its closing quote, parses
/// back to the value, and leaves exactly the rest.
proof fn lemma_parse_body_prefix(s: Seq<char>, i: int, f: Seq<char>, rest: Seq<char>)
    requires
        0 <= i <= s.len(),
        s.subrange(i, s.len() as int) == escape(f) + (qt() + rest),
    ensures
        0 <= i + escape(f).len() + 1 <= s.len(),
        parse_str_body(s, i) == Some((f, i + escape(f).len() + 1)),
        s.subrange(i + escape(f).len() + 1, s.len() as int) == rest,
    decreases f.len(),
{
    reveal_strlit("\"");
    let t = s.subrange(i, s.len() as int);
    assert(t.len() == escape(f).len() + 1 + rest.len());
    if f.len() == 0 {
        assert(escape(f) == Seq::<char>::empty());
        assert(t[0] == (qt() + rest)[0]);
        assert(s[i] == t[0]);
        assert(s[i] == '"');
        lemma_suffix_shift(s, i, 1);
        assert(t.skip(1) =~= rest);
    } else {
        let c = f[0];
        let e1 = escape1(c);
        let etail = escape(f.skip(1));
        assert(escape(f) == e1 + etail);
        let w = e1.len() as int;
        assert(s[i] == t[0]);
        assert(t[0] == (e1 + etail)[0]);
        assert(t[0] == e1[0]);
        lemma_suffix_shift(s, i, w);
        assert(t.skip(w) =~= etail + (qt() + rest));
        lemma_parse_body_prefix(s, i + w, f.skip(1), rest);
        if c == '"' || c == '\\' {
            assert(e1 == seq!['\\', c]);
            assert(s[i] == '\\');
            assert(s[i + 1] == t[1]);
            assert(t[1] == e1[1]);
            assert(s[i + 1] == c);
            assert(parse_str_body(s, i) == Some((seq![c] + f.skip(1), i + escape(f).len() + 1)));
            assert(seq![c] + f.skip(1) =~= f);
        } else {
            assert(e1 == seq![c]);
            assert(s[i] == c);
            assert(parse_str_body(s, i) == Some((seq![c] + f.skip(1), i + escape(f).len() + 1)));
            assert(seq![c] + f.skip(1) =~= f);
        }
    }
}

/// A value without quotes or backslashes is its own wire form.
proof fn lemma_escape_id(s: Seq<char>)
    requires
        forall|k: int| 0 <= k < s.len() ==> s[k] != '"' && s[k] != '\\',
    ensures
        escape(s) == s,
    decreases s.len(),
{
    if s.len() == 0 {
        assert(escape(s) =~= s);
    } else {
        lemma_escape_id(s.skip(1));
        assert(escape(s) =~= s);
    }
}

/// Round-trip law: decoding the wire form of any request yields that
/// request back.
#[verifier::rlimit(100)]
#[verifier::spinoff_prover]
pub proof fn lemma_round_trip(r: RequestView)
    ensures
        decode_spec(encode_spec(r)) == Some(r),
{
    let s = encode_spec(r);
    reveal_strlit("Highlight");
    lemma_escape_id(kind_name());
    let q = qt();
    // What remains to be consumed after each parsing step, innermost last.
    let a10 = l_close();
    let a9 = escape(r.path) + (q + a10);
    let a8 = l_path() + a9;
    let a7 = escape(r.language) + (q + a8);
    let a6 = l_language() + a7;
    let a5 = escape(r.buffer) + (q + a6);
    let a4 = l_buffer() + a5;
    let a3 = escape(r.session) + (q + a4);
    let a2 = l_session() + a3;
    let a1 = kind_name() + (q + a2);
    // The wire form, regrouped from the flat concatenation so that each
    // step's piece stands at the head of what is left.
    assert(s == l_kind() + a1) by {
        let p1 = l_kind() + kind_name();
        let p2 = p1 + q;
        let p3 = p2 + l_session();
        let p4 = p3 + escape(r.session);
        let p5 = p4 + q;
        let p6 = p5 + l_buffer();
        let p7 = p6 + escape(r.buffer);
        let p8 = p7 + q;
        let p9 = p8 + l_language();
        let p10 = p9 + escape(r.language);
        let p11 = p10 + q;
        let p12 = p11 + l_path();
        let p13 = p12 + escape(r.path);
        let p14 = p13 + q;
        assert(s == p14 + l_close());
        lemma_assoc(p13, q, a10);
        lemma_assoc(p12, escape(r.path), q + a10);
        lemma_assoc(p11, l_path(), a9);
        lemma_assoc(p10, q, a8);
        lemma_assoc(p9, escape(r.language), q + a8);
        lemma_assoc(p8, l_language(), a7);
        lemma_assoc(p7, q, a6);
        lemma_assoc(p6, escape(r.buffer), q + a6);
        lemma_assoc(p5, l_buffer(), a5);
        lemma_assoc(p4, q, a4);
        lemma_assoc(p3, escape(r.session), q + a4);
        lemma_assoc(p2, l_session(), a3);
        lemma_assoc(p1, q, a2);
        lemma_assoc(l_kind(), kind_name(), q + a2);
    }
    // Peel the pieces off one by one.
    assert(s.subrange(0, s.len() as int) =~= s);
    lemma_parse_exact_prefix(s, 0, l_kind(), a1);
    let i1 = l_kind().len() as int;
    lemma_parse_body_prefix(s, i1, kind_name(), a2);
    let i2 = i1 + escape(kind_name()).len() + 1;
    lemma_parse_exact_prefix(s, i2, l_session(), a3);
    let i3 = i2 + l_session().len() as int;
    lemma_parse_body_prefix(s, i3, r.session, a4);
    let i4 = i3 + escape(r.session).len() + 1;
    lemma_parse_exact_prefix(s, i4, l_buffer(), a5);
    let i5 = i4 + l_buffer().len() as int;
    lemma_parse_body_prefix(s, i5, r.buffer, a6);
    let i6 = i5 + escape(r.buffer).len() + 1;
    lemma_parse_exact_prefix(s, i6, l_language(), a7);
    let i7 = i6 + l_language().len() as int;
    lemma_parse_body_prefix(s, i7, r.language, a8);
    let i8 = i7 + escape(r.language).len() + 1;
    lemma_parse_exact_prefix(s, i8, l_path(), a9);
    let i9 = i8 + l_path().len() as int;
    lemma_parse_body_prefix(s, i9, r.path, a10);
    let i10 = i9 + escape(r.path).len() + 1;
    assert(l_close() + Seq::<char>::empty() =~= l_close());
    lemma_parse_exact_prefix(s, i10, l_close(), Seq::<char>::empty());
    let i11 = i10 + l_close().len() as int;
    assert(s.subrange(i11, s.len() as int).len() == 0);
    assert(i11 == s.len());
    assert(decode_spec(s) == Some(r));
}

// ---------------------------------------------------------------------
// Executable decoding.
// ---------------------------------------------------------------------

/// Consumes the literal `lit` at position `i` of `v`, as `parse_exact`
/// does.
fn parse_exact_exec(v: &Vec<char>, i: usize, lit: &str) -> (r: Option<usize>)
    ensures
        match r {
            Some(j) => parse_exact(v@, i as int, lit@) == Some(j as int) && j <= v@.len(),
            None => parse_exact(v@, i as int, lit@) is None,
        },
{
    let litv = str_to_chars(lit);
    let n = litv.len();
    if i > v.len() || n > v.len() - i {
        return None;
    }
    let mut k: usize = 0;
    while k < n
        invariant
            k <= n,
            n == litv.len(),
            litv@ == lit@,
            i + n <= v.len(),
            forall|m: int| 0 <= m < k ==> v@[i + m] == lit@[m],
        decreases n - k,
    {
        if v[i + k] != litv[k] {
            proof {
                assert(v@.subrange(i as int, i + n as int)[k as int] != lit@[k as int]);
            }
            return None;
        }
        k = k + 1;
    }
    proof {
        assert(v@.subrange(i as int, i + n as int) =~= lit@);
    }
    Some(i + n)
}

/// Consumes a quoted string's body at position `i` of `v`, as
/// `parse_str_body` does, building the unescaped value.
fn parse_body_exec(v: &Vec<char>, i: usize) -> (r: Option<(String, usize)>)
    ensures
        match r {
            Some(p) => parse_str_body(v@, i as int) == Some((p.0@, p.1 as int)) && p.1 <= v@.len(),
            None => parse_str_body(v@, i as int) is None,
        },
{
    let mut out = String::new();
    let mut pos = i;
    loop
        invariant
            i <= pos,
            parse_str_body(v@, i as int) == (match parse_str_body(v@, pos as int) {
                Some((g, j)) => Some((out@ + g, j)),
                None => None::<(Seq<char>, int)>,
            }),
        decreases v@.len() - pos,
    {
        if pos >= v.len() {
            return None;
        }
        let c = v[pos];
        if c == '"' {
            proof {
                assert(out@ + Seq::<char>::empty() =~= out@);
            }
            return Some((out, pos + 1));
        } else if c == '\\' {
            if pos + 1 < v.len() && (v[pos + 1] == '"' || v[pos + 1] == '\\') {
                let e = v[pos + 1];
                proof {
                    if let Some((g, j)) = parse_str_body(v@, pos + 2) {
                        assert(parse_str_body(v@, pos as int) == Some((seq![e] + g, j)));
                        assert(out@ + (seq![e] + g) =~= out@.push(e) + g);
                    }
                }
                push_char(&mut out, e);
                pos = pos + 2;
            } else {
                return None;
            }
        } else {
            proof {
                if let Some((g, j)) = parse_str_body(v@, pos + 1) {
                    assert(parse_str_body(v@, pos as int) == Some((seq![c] + g, j)));
                    assert(out@ + (seq![c] + g) =~= out@.push(c) + g);
                }
            }
            push_char(&mut out, c);
            pos = pos + 1;
        }
    }
}

/// Decodes a wire payload. Returns the request exactly when the payload is
/// the wire form of one; any other payload comes back inside a
/// `DecodeError`.
pub fn decode(s: &str) -> (r: Result<Request, DecodeError>)
    ensures
        match r {
            Ok(req) => decode_spec(s@) == Some(req@),
            Err(e) => decode_spec(s@) is None && e.payload@ == s@,
        },
{
    let v = str_to_chars(s);
    let i1 = match parse_exact_exec(&v, 0, "{\"kind\":\"") {
        Some(j) => j,
        None => {
            return Err(
                DecodeError {
                    payload: s.to_owned(),
                    reason: "malformed request envelope".to_owned(),
                },
            );
        },
    };
    let (kind, i2) = match parse_body_exec(&v, i1) {
        Some(p) => p,
        None => {
            return Err(
                DecodeError { payload: s.to_owned(), reason: "malformed kind tag".to_owned() },
            );
        },
    };
    let hl = "Highlight".to_owned();
    if !(kind == hl) {
        return Err(DecodeError { payload: s.to_owned(), reason: "unknown kind".to_owned() });
    }
    let i3 = match parse_exact_exec(&v, i2, ",\"session\":\"") {
        Some(j) => j,
        None => {
            return Err(
                DecodeError { payload: s.to_owned(), reason: "missing session".to_owned() },
            );
        },
    };
    let (session, i4) = match parse_body_exec(&v, i3) {
        Some(p) => p,
        None => {
            return Err(
                DecodeError { payload: s.to_owned(), reason: "malformed session".to_owned() },
            );
        },
    };
    let i5 = match parse_exact_exec(&v, i4, ",\"buffer\":\"") {
        Some(j) => j,
        None => {
            return Err(DecodeError { payload: s.to_owned(), reason: "missing buffer".to_owned() });
        },
    };
    let (buffer, i6) = match parse_body_exec(&v, i5) {
        Some(p) => p,
        None => {
            return Err(
                DecodeError { payload: s.to_owned(), reason: "malformed buffer".to_owned() },
            );
        },
    };
    let i7 = match parse_exact_exec(&v, i6, ",\"language\":\"") {
        Some(j) => j,
        None => {
            return Err(
                DecodeError { payload: s.to_owned(), reason: "missing language".to_owned() },
            );
        },
    };
    let (language, i8) = match parse_body_exec(&v, i7) {
        Some(p) => p,
        None => {
            return Err(
                DecodeError { payload: s.to_owned(), reason: "malformed language".to_owned() },
            );
        },
    };
    let i9 = match parse_exact_exec(&v, i8, ",\"path\":\"") {
        Some(j) => j,
        None => {
            return Err(DecodeError { payload: s.to_owned(), reason: "missing path".to_owned() });
        },
    };
    let (path, i10) = match parse_body_exec(&v, i9) {
        Some(p) => p,
        None => {
            return Err(DecodeError { payload: s.to_owned(), reason: "malformed path".to_owned() });
        },
    };
    let i11 = match parse_exact_exec(&v, i10, "}") {
        Some(j) => j,
        None => {
            return Err(
                DecodeError { payload: s.to_owned(), reason: "missing closing brace".to_owned() },
            );
        },
    };
    if i11 != v.len() {
        return Err(
            DecodeError {
                payload: s.to_owned(),
                reason: "trailing bytes after request".to_owned(),
            },
        );
    }
    Ok(Request::Highlight { session, buffer, language, path })
}

} // verus!
