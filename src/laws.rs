//! Properties of the grammar and the resolver, proved over their specifications.
use vstd::prelude::*;
use crate::grammar::{
    all_keys, key_of, line_statement, path_field, path_fields, field_diag, value_of,
};
use crate::lex::{fields, Span};
use crate::manifest::{line_step, run};
use crate::model::{
    no_defaults, no_fields, Diagnostic, DefaultsView, EntryView, ErrorKind, FieldsView, StatementView,
    UnsetKeys,
};
use crate::resolve::{apply_unset, first_of, resolve, step, ResolverView};
use crate::value::{all_hex, lemma_words_distinct, word_bytes, Word, DIGEST_LEN};

verus! {

/// A `/set` directly followed by a path line that does not set again a key
/// that the `/set` set: the resolved entry takes the mode and type that the
/// `/set` gave, and keeps its path and its other fields.
pub proof fn lemma_set_then_path(
    r: ResolverView,
    d: DefaultsView,
    e: EntryView,
    lo1: int,
    hi1: int,
    lo2: int,
    hi2: int,
)
    requires
        d.mode is Some ==> e.fields.mode is None,
        d.ty is Some ==> e.fields.ty is None,
    ensures
        ({
            let r2 = step(
                step(r, StatementView::SetDefaults(d), lo1, hi1),
                StatementView::Path(e),
                lo2,
                hi2,
            );
            let last = r2.entries.last();
            &&& r2.entries.len() == r.entries.len() + 1
            &&& d.mode is Some ==> last.fields.mode == d.mode
            &&& d.ty is Some ==> last.fields.ty == d.ty
            &&& last.path == e.path
            &&& last.fields.size == e.fields.size
            &&& last.fields.link == e.fields.link
            &&& last.fields.digest == e.fields.digest
            &&& last.fields.time == e.fields.time
        }),
{
}

/// A mode or type written on a path line wins over the defaults.
pub proof fn lemma_explicit_wins(r: ResolverView, e: EntryView, lo: int, hi: int)
    ensures
        ({
            let last = step(r, StatementView::Path(e), lo, hi).entries.last();
            &&& e.fields.mode is Some ==> last.fields.mode == e.fields.mode
            &&& e.fields.ty is Some ==> last.fields.ty == e.fields.ty
        }),
{
}

/// `/unset mode` clears the default mode and leaves the other defaults; a path
/// line without its own mode then resolves with none. uid and gid are never
/// carried into an entry.
pub proof fn lemma_unset_mode(r: ResolverView, e: EntryView, lo1: int, hi1: int, lo2: int, hi2: int)
    requires
        e.fields.mode is None,
    ensures
        ({
            let u = UnsetKeys { uid: false, gid: false, mode: true, ty: false };
            let r1 = step(r, StatementView::UnsetDefaults(u), lo1, hi1);
            let r2 = step(r1, StatementView::Path(e), lo2, hi2);
            &&& r1.scope == DefaultsView { mode: None, ..r.scope }
            &&& r2.entries.last().fields.mode is None
            &&& r2.entries.last().fields.ty == first_of(e.fields.ty, r.scope.ty)
        }),
{
}

/// An `/unset` of every key empties the defaults, so the next path line
/// resolves to exactly what it says itself.
pub proof fn lemma_unset_all(r: ResolverView, e: EntryView, lo1: int, hi1: int, lo2: int, hi2: int)
    ensures
        ({
            let r1 = step(r, StatementView::UnsetDefaults(all_keys()), lo1, hi1);
            let r2 = step(r1, StatementView::Path(e), lo2, hi2);
            &&& r1.scope == no_defaults()
            &&& r2.entries.last() == e
        }),
{
    assert(apply_unset(r.scope, all_keys()) == no_defaults());
}

/// A line whose first field starts with `.` is a path line whatever its other
/// fields hold: it yields that path, with the fields that could be read, and so
/// an entry of the manifest.
pub proof fn lemma_path_line_yields_entry(s: Seq<u8>, lo: int, hi: int)
    requires
        fields(s, lo, hi).len() > 0,
        s[fields(s, lo, hi)[0].start as int] == 46u8,
        fields(s, lo, hi)[0].start < fields(s, lo, hi)[0].end <= s.len(),
    ensures
        ({
            let t = fields(s, lo, hi)[0];
            let f = path_fields(s, fields(s, lo, hi), 1, no_fields(), seq![]);
            &&& line_statement(s, lo, hi).0 == Some(
                StatementView::Path(
                    EntryView { path: s.subrange(t.start as int, t.end as int), fields: f.0 },
                ),
            )
            &&& line_statement(s, lo, hi).1 == f.1
        }),
{
    let t = fields(s, lo, hi)[0];
    let first = s.subrange(t.start as int, t.end as int);
    assert(first[0] == 46u8);
    assert(first != word_bytes(Word::Header)) by {
        assert(word_bytes(Word::Header)[0] == 35u8);
    }
    assert(first != word_bytes(Word::SetCmd)) by {
        assert(word_bytes(Word::SetCmd)[0] == 47u8);
    }
    assert(first != word_bytes(Word::UnsetCmd)) by {
        assert(word_bytes(Word::UnsetCmd)[0] == 47u8);
    }
}

/// A line that holds `/unset` and nothing else unsets every key.
pub proof fn lemma_bare_unset(s: Seq<u8>, lo: int, hi: int)
    requires
        fields(s, lo, hi).len() == 1,
        s.subrange(fields(s, lo, hi)[0].start as int, fields(s, lo, hi)[0].end as int)
            == word_bytes(Word::UnsetCmd),
    ensures
        line_statement(s, lo, hi).0 == Some(StatementView::UnsetDefaults(all_keys())),
        line_statement(s, lo, hi).1 == Seq::<Diagnostic>::empty(),
{
    let w = word_bytes(Word::UnsetCmd);
    assert(w != word_bytes(Word::Header)) by {
        assert(w[0] != word_bytes(Word::Header)[0]);
    }
    assert(w != word_bytes(Word::SetCmd)) by {
        assert(w.len() != word_bytes(Word::SetCmd).len());
    }
}

/// A digest of 64 hexadecimal digits is read; one of any other length is
/// reported as `InvalidDigestLength` and leaves the fields as they were.
pub proof fn lemma_digest_length(s: Seq<u8>, t: Span, f: FieldsView)
    requires
        key_of(s, t) == word_bytes(Word::Digest),
    ensures
        value_of(s, t).len() == DIGEST_LEN && all_hex(value_of(s, t)) ==> path_field(s, t, f)
            == Ok::<FieldsView, ErrorKind>(FieldsView { digest: Some(value_of(s, t)), ..f }),
        value_of(s, t).len() != DIGEST_LEN ==> path_field(s, t, f) == Err::<FieldsView, ErrorKind>(
            ErrorKind::InvalidDigestLength,
        ),
{
    lemma_words_distinct();
}

/// A field of a path line that is in error, whatever the error (an unknown key,
/// a bad value), is reported and skipped: the fields read so far stay, and the
/// later fields of the same line are still read.
pub proof fn lemma_bad_field_skipped(
    s: Seq<u8>,
    toks: Seq<Span>,
    k: int,
    f: FieldsView,
    d: Seq<Diagnostic>,
)
    requires
        0 <= k < toks.len(),
        path_field(s, toks[k], f) is Err,
    ensures
        path_fields(s, toks, k, f, d) == path_fields(
            s,
            toks,
            k + 1,
            f,
            d.push(field_diag(path_field(s, toks[k], f)->Err_0, toks[k])),
        ),
{
}

/// A field whose key a path line does not know is reported as `UnknownKey`.
pub proof fn lemma_unknown_key(s: Seq<u8>, t: Span, f: FieldsView)
    requires
        key_of(s, t) != word_bytes(Word::Mode),
        key_of(s, t) != word_bytes(Word::Type),
        key_of(s, t) != word_bytes(Word::Size),
        key_of(s, t) != word_bytes(Word::Link),
        key_of(s, t) != word_bytes(Word::Digest),
        key_of(s, t) != word_bytes(Word::Time),
    ensures
        path_field(s, t, f) == Err::<FieldsView, ErrorKind>(ErrorKind::UnknownKey),
{
}

/// A line never removes or reorders entries: it keeps those before it, and a
/// path line adds its own resolution after them.
pub proof fn lemma_line_appends(s: Seq<u8>, lo: int, hi: int, r: ResolverView)
    ensures
        r.entries.is_prefix_of(line_step(s, lo, hi, r).entries),
        line_statement(s, lo, hi).0 matches Some(StatementView::Path(e)) ==> line_step(
            s,
            lo,
            hi,
            r,
        ).entries == r.entries.push(resolve(r.scope, e)),
        !(line_statement(s, lo, hi).0 is Some && line_statement(s, lo, hi).0->Some_0 is Path)
            ==> line_step(s, lo, hi, r).entries == r.entries,
{
    let r2 = line_step(s, lo, hi, r);
    assert(r.entries.is_prefix_of(r2.entries)) by {
        assert forall|i: int| 0 <= i < r.entries.len() implies r2.entries[i] == r.entries[i] by {}
    }
}

/// The entries of a parse come out in the order of their lines: whatever the
/// rest of the input holds, the entries resolved so far stay first, in order.
pub proof fn lemma_run_keeps_order(s: Seq<u8>, i: int, ls: int, r: ResolverView)
    ensures
        r.entries.is_prefix_of(run(s, i, ls, r).entries),
    decreases s.len() - i,
{
    if i >= s.len() {
        assert(r.entries.is_prefix_of(run(s, i, ls, r).entries)) by {
            assert forall|k: int| 0 <= k < r.entries.len() implies run(s, i, ls, r).entries[k]
                == r.entries[k] by {}
        }
    } else if s[i] == 10u8 {
        let r1 = line_step(s, ls, i, r);
        lemma_line_appends(s, ls, i, r);
        lemma_run_keeps_order(s, i + 1, i + 1, r1);
        assert(r.entries.is_prefix_of(run(s, i, ls, r).entries)) by {
            let out = run(s, i, ls, r).entries;
            assert forall|k: int| 0 <= k < r.entries.len() implies out[k] == r.entries[k] by {
                assert(r1.entries[k] == r.entries[k]);
            }
        }
    } else {
        lemma_run_keeps_order(s, i + 1, ls, r);
    }
}

/// The path lines of the input from byte `i` (the current line began at `ls`),
/// as written, before resolution, in the order of the lines.
pub open spec fn line_entries(s: Seq<u8>, i: int, ls: int) -> Seq<EntryView>
    decreases s.len() - i,
{
    if i >= s.len() {
        seq![]
    } else if s[i] == 10u8 {
        let here = match line_statement(s, ls, i).0 {
            Some(StatementView::Path(e)) => seq![e],
            _ => seq![],
        };
        here + line_entries(s, i + 1, i + 1)
    } else {
        line_entries(s, i + 1, ls)
    }
}

/// Whether no line of the input from byte `i` is a `/set`.
pub open spec fn no_set_lines(s: Seq<u8>, i: int, ls: int) -> bool
    decreases s.len() - i,
{
    if i >= s.len() {
        true
    } else if s[i] == 10u8 {
        !(line_statement(s, ls, i).0 matches Some(StatementView::SetDefaults(_)))
            && no_set_lines(s, i + 1, i + 1)
    } else {
        no_set_lines(s, i + 1, ls)
    }
}

pub open spec fn paths_of(es: Seq<EntryView>) -> Seq<Seq<u8>> {
    es.map_values(|e: EntryView| e.path)
}

/// A line that holds no statement (blank, or of no known kind) only adds its
/// diagnostics: the defaults, the entries and the header state stay as they were.
pub proof fn lemma_no_statement_line(s: Seq<u8>, lo: int, hi: int, r: ResolverView)
    requires
        (line_statement(s, lo, hi).0 is None),
    ensures
        (line_step(s, lo, hi, r) == ResolverView {
            diagnostics: r.diagnostics + line_statement(s, lo, hi).1,
            ..r
        }),
{
}

/// The entries of a parse are the path lines of the input, one for each, in the
/// order of the lines, whatever the other lines hold: their paths are exactly
/// the paths of those lines.
pub proof fn lemma_entries_follow_path_lines(s: Seq<u8>, i: int, ls: int, r: ResolverView)
    ensures
        paths_of(run(s, i, ls, r).entries) == paths_of(r.entries) + paths_of(
            line_entries(s, i, ls),
        ),
    decreases s.len() - i,
{
    if i >= s.len() {
        assert(paths_of(r.entries) + paths_of(line_entries(s, i, ls)) =~= paths_of(r.entries));
    } else if s[i] == 10u8 {
        let r1 = line_step(s, ls, i, r);
        lemma_entries_follow_path_lines(s, i + 1, i + 1, r1);
        let rest = line_entries(s, i + 1, i + 1);
        match line_statement(s, ls, i).0 {
            Some(StatementView::Path(e)) => {
                assert(r1.entries == r.entries.push(resolve(r.scope, e)));
                assert(line_entries(s, i, ls) == seq![e] + rest);
                assert(paths_of(r1.entries) + paths_of(rest) =~= paths_of(r.entries) + paths_of(
                    seq![e] + rest,
                ));
            },
            _ => {
                lemma_line_appends(s, ls, i, r);
                assert(line_entries(s, i, ls) =~= rest);
            },
        }
    } else {
        lemma_entries_follow_path_lines(s, i + 1, ls, r);
    }
}

/// Once the defaults are empty (after a bare `/unset`, or at the start), and
/// while no `/set` line follows, each path line resolves to exactly what it
/// says itself, however many other lines stand between.
pub proof fn lemma_no_defaults_until_set(s: Seq<u8>, i: int, ls: int, r: ResolverView)
    requires
        r.scope == no_defaults(),
        no_set_lines(s, i, ls),
    ensures
        run(s, i, ls, r).entries == r.entries + line_entries(s, i, ls),
    decreases s.len() - i,
{
    if i >= s.len() {
        assert(r.entries + line_entries(s, i, ls) =~= r.entries);
    } else if s[i] == 10u8 {
        let r1 = line_step(s, ls, i, r);
        let rest = line_entries(s, i + 1, i + 1);
        match line_statement(s, ls, i).0 {
            Some(StatementView::Path(e)) => {
                assert(resolve(no_defaults(), e) == e);
                assert(r1.entries == r.entries.push(e));
                assert(line_entries(s, i, ls) == seq![e] + rest);
                lemma_no_defaults_until_set(s, i + 1, i + 1, r1);
                assert(r1.entries + rest =~= r.entries + (seq![e] + rest));
            },
            Some(StatementView::UnsetDefaults(u)) => {
                assert(apply_unset(no_defaults(), u) == no_defaults());
                assert(line_entries(s, i, ls) =~= rest);
                lemma_no_defaults_until_set(s, i + 1, i + 1, r1);
            },
            _ => {
                assert(line_entries(s, i, ls) =~= rest);
                lemma_no_defaults_until_set(s, i + 1, i + 1, r1);
            },
        }
    } else {
        lemma_no_defaults_until_set(s, i + 1, ls, r);
    }
}

/// How many of the fields `toks[k..]` of a path line are in error.
pub open spec fn bad_fields(s: Seq<u8>, toks: Seq<Span>, k: int) -> nat
    decreases toks.len() - k,
{
    if k < 0 || k >= toks.len() {
        0
    } else {
        (if path_field(s, toks[k], no_fields()) is Err {
            1nat
        } else {
            0nat
        }) + bad_fields(s, toks, k + 1)
    }
}

/// Whether a field of a path line is in error does not depend on the fields
/// read before it.
pub proof fn lemma_field_error_independent(s: Seq<u8>, t: Span, f: FieldsView, g: FieldsView)
    ensures
        (path_field(s, t, f) is Err) == (path_field(s, t, g) is Err),
        path_field(s, t, f) is Err ==> path_field(s, t, f) == path_field(s, t, g),
{
}

/// Reading the fields of a path line keeps the diagnostics it was given and adds
/// exactly one for each field in error.
pub proof fn lemma_one_diagnostic_per_bad_field(
    s: Seq<u8>,
    toks: Seq<Span>,
    k: int,
    f: FieldsView,
    d: Seq<Diagnostic>,
)
    requires
        0 <= k,
    ensures
        path_fields(s, toks, k, f, d).1.len() == d.len() + bad_fields(s, toks, k),
        d.is_prefix_of(path_fields(s, toks, k, f, d).1),
    decreases toks.len() - k,
{
    if k < toks.len() {
        lemma_field_error_independent(s, toks[k], f, no_fields());
        match path_field(s, toks[k], f) {
            Ok(f2) => lemma_one_diagnostic_per_bad_field(s, toks, k + 1, f2, d),
            Err(e) => {
                let d2 = d.push(field_diag(e, toks[k]));
                lemma_one_diagnostic_per_bad_field(s, toks, k + 1, f, d2);
                let out = path_fields(s, toks, k, f, d).1;
                assert forall|i: int| 0 <= i < d.len() implies out[i] == d[i] by {
                    assert(d2[i] == d[i]);
                }
            },
        }
    }
}

} // verus!
