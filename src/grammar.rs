//! The directive grammar: one line of input to one statement and the
//! diagnostics of its fields.
use vstd::prelude::*;
use crate::lex::{byte_pos, copy_bytes, fields, find_byte, span_within, split_fields, Span};
use crate::model::{
    no_defaults, no_fields, opt_statement, Defaults, DefaultsView, Diagnostic, Entry, EntryView,
    ErrorKind, Fields, FieldsView, Statement, StatementView, UnsetKeys,
};
use crate::value::{
    all_hex, check_hex, check_mode, decimal_value, is_word, mode_ok, parse_decimal,
    parse_path_type, parse_time, path_type_of, time_value, word_bytes, Word, DIGEST_LEN,
};

verus! {

/// Where the key of a `key=value` field ends: at its first `=`, or at its end.
pub open spec fn key_end(s: Seq<u8>, t: Span) -> int {
    byte_pos(s, t.start as int, t.end as int, 61u8)
}

/// The key of a field: what comes before its first `=`.
pub open spec fn key_of(s: Seq<u8>, t: Span) -> Seq<u8> {
    s.subrange(t.start as int, key_end(s, t))
}

/// The value of a field: what comes after its first `=`; empty without one.
pub open spec fn value_of(s: Seq<u8>, t: Span) -> Seq<u8> {
    if key_end(s, t) < t.end {
        s.subrange(key_end(s, t) + 1, t.end as int)
    } else {
        seq![]
    }
}

/// The diagnostic of a problem in field `t`.
pub open spec fn field_diag(kind: ErrorKind, t: Span) -> Diagnostic {
    Diagnostic { kind, offset: t.start, length: (t.end - t.start) as usize }
}

/// The diagnostic of a problem with the line `s[lo..hi]` as a whole.
pub open spec fn line_diag(kind: ErrorKind, lo: int, hi: int) -> Diagnostic {
    Diagnostic { kind, offset: lo as usize, length: (hi - lo) as usize }
}

/// The digest that a value denotes: 64 hexadecimal digits.
pub open spec fn digest_of(v: Seq<u8>) -> Result<Seq<u8>, ErrorKind> {
    if v.len() != DIGEST_LEN {
        Err(ErrorKind::InvalidDigestLength)
    } else if all_hex(v) {
        Ok(v)
    } else {
        Err(ErrorKind::InvalidNumber)
    }
}

/// One field of a path line, added to the fields `f` read before it.
pub open spec fn path_field(s: Seq<u8>, t: Span, f: FieldsView) -> Result<FieldsView, ErrorKind> {
    let k = key_of(s, t);
    let v = value_of(s, t);
    if k == word_bytes(Word::Mode) {
        if mode_ok(v) {
            Ok(FieldsView { mode: Some(v), ..f })
        } else {
            Err(ErrorKind::InvalidOctalMode)
        }
    } else if k == word_bytes(Word::Type) {
        match path_type_of(v) {
            Some(p) => Ok(FieldsView { ty: Some(p), ..f }),
            None => Err(ErrorKind::InvalidType),
        }
    } else if k == word_bytes(Word::Size) {
        match decimal_value(v) {
            Some(n) => Ok(FieldsView { size: Some(n), ..f }),
            None => Err(ErrorKind::InvalidNumber),
        }
    } else if k == word_bytes(Word::Link) {
        Ok(FieldsView { link: Some(v), ..f })
    } else if k == word_bytes(Word::Digest) {
        match digest_of(v) {
            Ok(d) => Ok(FieldsView { digest: Some(d), ..f }),
            Err(e) => Err(e),
        }
    } else if k == word_bytes(Word::Time) {
        match time_value(v) {
            Some(n) => Ok(FieldsView { time: Some(n), ..f }),
            None => Err(ErrorKind::InvalidNumber),
        }
    } else {
        Err(ErrorKind::UnknownKey)
    }
}

/// One field of a `/set` line, added to the defaults `d` read before it.
pub open spec fn default_field(s: Seq<u8>, t: Span, d: DefaultsView) -> Result<
    DefaultsView,
    ErrorKind,
> {
    let k = key_of(s, t);
    let v = value_of(s, t);
    if k == word_bytes(Word::Uid) {
        match decimal_value(v) {
            Some(n) => Ok(DefaultsView { uid: Some(n), ..d }),
            None => Err(ErrorKind::InvalidNumber),
        }
    } else if k == word_bytes(Word::Gid) {
        match decimal_value(v) {
            Some(n) => Ok(DefaultsView { gid: Some(n), ..d }),
            None => Err(ErrorKind::InvalidNumber),
        }
    } else if k == word_bytes(Word::Mode) {
        if mode_ok(v) {
            Ok(DefaultsView { mode: Some(v), ..d })
        } else {
            Err(ErrorKind::InvalidOctalMode)
        }
    } else if k == word_bytes(Word::Type) {
        match path_type_of(v) {
            Some(p) => Ok(DefaultsView { ty: Some(p), ..d }),
            None => Err(ErrorKind::InvalidType),
        }
    } else {
        Err(ErrorKind::UnknownKey)
    }
}

/// One key of an `/unset` line, added to the keys `u` read before it.
pub open spec fn unset_key(s: Seq<u8>, t: Span, u: UnsetKeys) -> Result<UnsetKeys, ErrorKind> {
    let w = s.subrange(t.start as int, t.end as int);
    if w == word_bytes(Word::Uid) {
        Ok(UnsetKeys { uid: true, ..u })
    } else if w == word_bytes(Word::Gid) {
        Ok(UnsetKeys { gid: true, ..u })
    } else if w == word_bytes(Word::Mode) {
        Ok(UnsetKeys { mode: true, ..u })
    } else if w == word_bytes(Word::Type) {
        Ok(UnsetKeys { ty: true, ..u })
    } else {
        Err(ErrorKind::UnknownKey)
    }
}

/// The fields `toks[k..]` of a path line read into `f`, each problem appended to `d`.
pub open spec fn path_fields(
    s: Seq<u8>,
    toks: Seq<Span>,
    k: int,
    f: FieldsView,
    d: Seq<Diagnostic>,
) -> (FieldsView, Seq<Diagnostic>)
    decreases toks.len() - k,
{
    if k < 0 || k >= toks.len() {
        (f, d)
    } else {
        match path_field(s, toks[k], f) {
            Ok(f2) => path_fields(s, toks, k + 1, f2, d),
            Err(e) => path_fields(s, toks, k + 1, f, d.push(field_diag(e, toks[k]))),
        }
    }
}

/// The fields `toks[k..]` of a `/set` line read into `a`, each problem appended to `d`.
pub open spec fn default_fields(
    s: Seq<u8>,
    toks: Seq<Span>,
    k: int,
    a: DefaultsView,
    d: Seq<Diagnostic>,
) -> (DefaultsView, Seq<Diagnostic>)
    decreases toks.len() - k,
{
    if k < 0 || k >= toks.len() {
        (a, d)
    } else {
        match default_field(s, toks[k], a) {
            Ok(a2) => default_fields(s, toks, k + 1, a2, d),
            Err(e) => default_fields(s, toks, k + 1, a, d.push(field_diag(e, toks[k]))),
        }
    }
}

/// The keys `toks[k..]` of an `/unset` line read into `u`, each problem appended to `d`.
pub open spec fn unset_keys(
    s: Seq<u8>,
    toks: Seq<Span>,
    k: int,
    u: UnsetKeys,
    d: Seq<Diagnostic>,
) -> (UnsetKeys, Seq<Diagnostic>)
    decreases toks.len() - k,
{
    if k < 0 || k >= toks.len() {
        (u, d)
    } else {
        match unset_key(s, toks[k], u) {
            Ok(u2) => unset_keys(s, toks, k + 1, u2, d),
            Err(e) => unset_keys(s, toks, k + 1, u, d.push(field_diag(e, toks[k]))),
        }
    }
}

pub open spec fn no_keys() -> UnsetKeys {
    UnsetKeys { uid: false, gid: false, mode: false, ty: false }
}

pub open spec fn all_keys() -> UnsetKeys {
    UnsetKeys { uid: true, gid: true, mode: true, ty: true }
}

/// The statement of the line `s[lo..hi]`, if it holds one, and the problems in it.
/// The first field decides: `#mtree`, `/set`, `/unset`, or a path starting with `.`.
pub open spec fn line_statement(s: Seq<u8>, lo: int, hi: int) -> (
    Option<StatementView>,
    Seq<Diagnostic>,
) {
    let toks = fields(s, lo, hi);
    if toks.len() == 0 {
        (None, seq![line_diag(ErrorKind::UnrecognizedLine, lo, hi)])
    } else {
        let first = s.subrange(toks[0].start as int, toks[0].end as int);
        if first == word_bytes(Word::Header) {
            (Some(StatementView::Header), seq![])
        } else if first == word_bytes(Word::SetCmd) {
            let (a, d) = default_fields(s, toks, 1, no_defaults(), seq![]);
            (Some(StatementView::SetDefaults(a)), d)
        } else if first == word_bytes(Word::UnsetCmd) {
            if toks.len() == 1 {
                (Some(StatementView::UnsetDefaults(all_keys())), seq![])
            } else {
                let (u, d) = unset_keys(s, toks, 1, no_keys(), seq![]);
                (Some(StatementView::UnsetDefaults(u)), d)
            }
        } else if first[0] == 46u8 {
            let (f, d) = path_fields(s, toks, 1, no_fields(), seq![]);
            (Some(StatementView::Path(EntryView { path: first, fields: f })), d)
        } else {
            (None, seq![line_diag(ErrorKind::UnrecognizedLine, lo, hi)])
        }
    }
}

/// Splits field `t` at its first `=`: the end of the key and the start of the value.
fn split_key(s: &[u8], t: Span) -> (r: (usize, usize))
    requires
        span_within(t, 0, s@.len() as int),
    ensures
        r.0 == key_end(s@, t),
        t.start <= r.0 <= r.1 <= t.end,
        s@.subrange(t.start as int, r.0 as int) == key_of(s@, t),
        s@.subrange(r.1 as int, t.end as int) == value_of(s@, t),
{
    let e = find_byte(s, t.start, t.end, 61u8);
    if e < t.end {
        (e, e + 1)
    } else {
        proof {
            assert(s@.subrange(t.end as int, t.end as int) =~= seq![]);
        }
        (e, t.end)
    }
}

/// Reads field `t` of a path line into `f`; on a problem, `f` is left as it was
/// and the problem is returned.
pub fn parse_path_field(s: &[u8], t: Span, f: &mut Fields) -> (r: Option<ErrorKind>)
    requires
        span_within(t, 0, s@.len() as int),
    ensures
        match path_field(s@, t, old(f)@) {
            Ok(f2) => r is None && final(f)@ == f2,
            Err(e) => r == Some(e) && final(f)@ == old(f)@,
        },
{
    let (ke, vs) = split_key(s, t);
    if is_word(s, t.start, ke, Word::Mode) {
        if check_mode(s, vs, t.end) {
            f.mode = Some(copy_bytes(s, vs, t.end));
            None
        } else {
            Some(ErrorKind::InvalidOctalMode)
        }
    } else if is_word(s, t.start, ke, Word::Type) {
        match parse_path_type(s, vs, t.end) {
            Some(p) => {
                f.ty = Some(p);
                None
            },
            None => Some(ErrorKind::InvalidType),
        }
    } else if is_word(s, t.start, ke, Word::Size) {
        match parse_decimal(s, vs, t.end) {
            Some(n) => {
                f.size = Some(n);
                None
            },
            None => Some(ErrorKind::InvalidNumber),
        }
    } else if is_word(s, t.start, ke, Word::Link) {
        f.link = Some(copy_bytes(s, vs, t.end));
        None
    } else if is_word(s, t.start, ke, Word::Digest) {
        if t.end - vs != DIGEST_LEN {
            Some(ErrorKind::InvalidDigestLength)
        } else if check_hex(s, vs, t.end) {
            f.digest = Some(copy_bytes(s, vs, t.end));
            None
        } else {
            Some(ErrorKind::InvalidNumber)
        }
    } else if is_word(s, t.start, ke, Word::Time) {
        match parse_time(s, vs, t.end) {
            Some(n) => {
                f.time = Some(n);
                None
            },
            None => Some(ErrorKind::InvalidNumber),
        }
    } else {
        Some(ErrorKind::UnknownKey)
    }
}

/// Reads field `t` of a `/set` line into `d`; on a problem, `d` is left as it
/// was and the problem is returned.
pub fn parse_default_field(s: &[u8], t: Span, d: &mut Defaults) -> (r: Option<ErrorKind>)
    requires
        span_within(t, 0, s@.len() as int),
    ensures
        match default_field(s@, t, old(d)@) {
            Ok(d2) => r is None && final(d)@ == d2,
            Err(e) => r == Some(e) && final(d)@ == old(d)@,
        },
{
    let (ke, vs) = split_key(s, t);
    if is_word(s, t.start, ke, Word::Uid) {
        match parse_decimal(s, vs, t.end) {
            Some(n) => {
                d.uid = Some(n);
                None
            },
            None => Some(ErrorKind::InvalidNumber),
        }
    } else if is_word(s, t.start, ke, Word::Gid) {
        match parse_decimal(s, vs, t.end) {
            Some(n) => {
                d.gid = Some(n);
                None
            },
            None => Some(ErrorKind::InvalidNumber),
        }
    } else if is_word(s, t.start, ke, Word::Mode) {
        if check_mode(s, vs, t.end) {
            d.mode = Some(copy_bytes(s, vs, t.end));
            None
        } else {
            Some(ErrorKind::InvalidOctalMode)
        }
    } else if is_word(s, t.start, ke, Word::Type) {
        match parse_path_type(s, vs, t.end) {
            Some(p) => {
                d.ty = Some(p);
                None
            },
            None => Some(ErrorKind::InvalidType),
        }
    } else {
        Some(ErrorKind::UnknownKey)
    }
}

/// Reads key `t` of an `/unset` line into `u`.
pub fn parse_unset_key(s: &[u8], t: Span, u: UnsetKeys) -> (r: Result<UnsetKeys, ErrorKind>)
    requires
        span_within(t, 0, s@.len() as int),
    ensures
        r == unset_key(s@, t, u),
{
    if is_word(s, t.start, t.end, Word::Uid) {
        Ok(UnsetKeys { uid: true, ..u })
    } else if is_word(s, t.start, t.end, Word::Gid) {
        Ok(UnsetKeys { gid: true, ..u })
    } else if is_word(s, t.start, t.end, Word::Mode) {
        Ok(UnsetKeys { mode: true, ..u })
    } else if is_word(s, t.start, t.end, Word::Type) {
        Ok(UnsetKeys { ty: true, ..u })
    } else {
        Err(ErrorKind::UnknownKey)
    }
}

/// The fields of a path line after its path, and their problems.
fn parse_path_fields(s: &[u8], toks: &Vec<Span>) -> (r: (Fields, Vec<Diagnostic>))
    requires
        forall|k: int| 0 <= k < toks@.len() ==> span_within(#[trigger] toks@[k], 0, s@.len() as int),
    ensures
        (r.0@, r.1@) == path_fields(s@, toks@, 1, no_fields(), seq![]),
{
    let mut f = Fields::new();
    let mut d: Vec<Diagnostic> = Vec::new();
    let mut k: usize = 1;
    while k < toks.len()
        invariant
            1 <= k,
            forall|j: int| 0 <= j < toks@.len() ==> span_within(#[trigger] toks@[j], 0, s@.len() as int),
            path_fields(s@, toks@, k as int, f@, d@) == path_fields(s@, toks@, 1, no_fields(), seq![]),
        decreases toks@.len() - k,
    {
        let t = toks[k];
        match parse_path_field(s, t, &mut f) {
            None => {},
            Some(e) => {
                d.push(Diagnostic { kind: e, offset: t.start, length: t.end - t.start });
            },
        }
        k = k + 1;
    }
    (f, d)
}

/// The fields of a `/set` line after the command, and their problems.
fn parse_default_fields(s: &[u8], toks: &Vec<Span>) -> (r: (Defaults, Vec<Diagnostic>))
    requires
        forall|k: int| 0 <= k < toks@.len() ==> span_within(#[trigger] toks@[k], 0, s@.len() as int),
    ensures
        (r.0@, r.1@) == default_fields(s@, toks@, 1, no_defaults(), seq![]),
{
    let mut a = Defaults::new();
    let mut d: Vec<Diagnostic> = Vec::new();
    let mut k: usize = 1;
    while k < toks.len()
        invariant
            1 <= k,
            forall|j: int| 0 <= j < toks@.len() ==> span_within(#[trigger] toks@[j], 0, s@.len() as int),
            default_fields(s@, toks@, k as int, a@, d@) == default_fields(s@, toks@, 1, no_defaults(), seq![]),
        decreases toks@.len() - k,
    {
        let t = toks[k];
        match parse_default_field(s, t, &mut a) {
            None => {},
            Some(e) => {
                d.push(Diagnostic { kind: e, offset: t.start, length: t.end - t.start });
            },
        }
        k = k + 1;
    }
    (a, d)
}

/// The keys of an `/unset` line after the command, and their problems.
fn parse_unset_keys(s: &[u8], toks: &Vec<Span>) -> (r: (UnsetKeys, Vec<Diagnostic>))
    requires
        forall|k: int| 0 <= k < toks@.len() ==> span_within(#[trigger] toks@[k], 0, s@.len() as int),
    ensures
        (r.0, r.1@) == unset_keys(s@, toks@, 1, no_keys(), seq![]),
{
    let mut u = UnsetKeys { uid: false, gid: false, mode: false, ty: false };
    let mut d: Vec<Diagnostic> = Vec::new();
    let mut k: usize = 1;
    while k < toks.len()
        invariant
            1 <= k,
            forall|j: int| 0 <= j < toks@.len() ==> span_within(#[trigger] toks@[j], 0, s@.len() as int),
            unset_keys(s@, toks@, k as int, u, d@) == unset_keys(s@, toks@, 1, no_keys(), seq![]),
        decreases toks@.len() - k,
    {
        let t = toks[k];
        match parse_unset_key(s, t, u) {
            Ok(u2) => {
                u = u2;
            },
            Err(e) => {
                d.push(Diagnostic { kind: e, offset: t.start, length: t.end - t.start });
            },
        }
        k = k + 1;
    }
    (u, d)
}

/// Parses the line `s[lo..hi]` (without its newline) into a statement, if it
/// holds one, and appends the problems found in it to `diags`. A problem in one
/// field leaves the other fields of the line to be read.
pub fn parse_statement(s: &[u8], lo: usize, hi: usize, diags: &mut Vec<Diagnostic>) -> (r: Option<
    Statement,
>)
    requires
        lo <= hi <= s@.len(),
    ensures
        opt_statement(r) == line_statement(s@, lo as int, hi as int).0,
        final(diags)@ == old(diags)@ + line_statement(s@, lo as int, hi as int).1,
{
    let toks = split_fields(s, lo, hi);
    let ghost expected = line_statement(s@, lo as int, hi as int);
    if toks.len() == 0 {
        diags.push(Diagnostic { kind: ErrorKind::UnrecognizedLine, offset: lo, length: hi - lo });
        proof {
            assert(final(diags)@ =~= old(diags)@ + expected.1);
        }
        return None;
    }
    let t0 = toks[0];
    let mut found: Vec<Diagnostic>;
    let r: Option<Statement>;
    if is_word(s, t0.start, t0.end, Word::Header) {
        found = Vec::new();
        r = Some(Statement::Header);
    } else if is_word(s, t0.start, t0.end, Word::SetCmd) {
        let (a, d) = parse_default_fields(s, &toks);
        found = d;
        r = Some(Statement::SetDefaults(a));
    } else if is_word(s, t0.start, t0.end, Word::UnsetCmd) {
        if toks.len() == 1 {
            found = Vec::new();
            r = Some(Statement::UnsetDefaults(UnsetKeys { uid: true, gid: true, mode: true, ty: true }));
        } else {
            let (u, d) = parse_unset_keys(s, &toks);
            found = d;
            r = Some(Statement::UnsetDefaults(u));
        }
    } else if s[t0.start] == 46u8 {
        let path = copy_bytes(s, t0.start, t0.end);
        let (f, d) = parse_path_fields(s, &toks);
        found = d;
        r = Some(Statement::Path(Entry { path, fields: f }));
    } else {
        found = Vec::new();
        found.push(Diagnostic { kind: ErrorKind::UnrecognizedLine, offset: lo, length: hi - lo });
        r = None;
    }
    proof {
        assert(found@ =~= expected.1);
    }
    diags.append(&mut found);
    r
}

} // verus!
