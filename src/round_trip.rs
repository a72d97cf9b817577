//! Reading written entries back: the text that `render` writes parses to the
//! same entries, without a diagnostic.
use vstd::prelude::*;
use crate::grammar::{
    default_field, default_fields, digest_of, key_end, key_of, line_statement, path_field,
    path_fields, value_of,
};
use crate::laws::lemma_path_line_yields_entry;
use crate::lex::{
    byte_pos, fields, fields_from, is_ws, lemma_byte_pos_bounds, lemma_fields_from_within,
    span_within, Span,
};
use crate::manifest::{line_step, parse_spec, run};
use crate::model::{
    no_defaults, no_fields, DefaultsView, Diagnostic, EntryView, FieldsView, StatementView,
};
use crate::render::{
    dec_bytes, entry_line, field_item, field_text, field_word, fields_text, item_of,
    lemma_dec_bytes, render_spec, type_bytes,
};
use crate::resolve::{apply_set, apply_unset, initial, resolve, step, ResolverView};
use crate::value::{
    all_hex, decimal_value, is_digit, lemma_words_distinct, mode_ok, path_type_of, time_value,
    word_bytes, PathType, Word, DIGEST_LEN,
};

verus! {

/// Bytes that can stand inside a field: no whitespace, no newline.
pub open spec fn plain(v: Seq<u8>) -> bool {
    forall|i: int| 0 <= i < v.len() ==> !is_ws(#[trigger] v[i]) && v[i] != 10u8
}

/// An entry that its path line describes exactly: a path that starts with `.`,
/// and a path, mode, link and digest that hold no whitespace or newline and are
/// each valid for its key.
pub open spec fn writable(e: EntryView) -> bool {
    &&& e.path.len() > 0
    &&& e.path[0] == 46u8
    &&& plain(e.path)
    &&& (e.fields.mode matches Some(m) ==> mode_ok(m))
    &&& (e.fields.link matches Some(l) ==> plain(l))
    &&& (e.fields.digest matches Some(d) ==> d.len() == DIGEST_LEN && all_hex(d))
}

pub open spec fn word_char(b: u8) -> bool {
    (48u8 <= b <= 57u8) || (97u8 <= b <= 122u8)
}

proof fn lemma_word_chars(w: Word)
    requires
        !(w is Header || w is SetCmd || w is UnsetCmd),
    ensures
        forall|i: int| 0 <= i < word_bytes(w).len() ==> word_char(#[trigger] word_bytes(w)[i]),
{
    let b = word_bytes(w);
    assert forall|i: int| 0 <= i < b.len() implies word_char(#[trigger] b[i]) by {
        if i == 0 {
        } else if i == 1 {
        } else if i == 2 {
        } else if i == 3 {
        } else if i == 4 {
        } else if i == 5 {
        } else if i == 6 {
        } else if i == 7 {
        } else if i == 8 {
        } else if i == 9 {
        } else if i == 10 {
        } else {
        }
    }
}

proof fn lemma_type_round_trip(t: PathType)
    ensures
        path_type_of(type_bytes(t)) == Some(t),
        forall|i: int| 0 <= i < type_bytes(t).len() ==> word_char(#[trigger] type_bytes(t)[i]),
{
    lemma_words_distinct();
    lemma_word_chars(Word::Dir);
    lemma_word_chars(Word::File);
    lemma_word_chars(Word::Link);
}

/// `byte_pos` finds the first `c` at `p` when none comes before it.
proof fn lemma_byte_pos_at(s: Seq<u8>, lo: int, hi: int, p: int, c: u8)
    requires
        lo <= p <= hi,
        p < hi ==> s[p] == c,
        forall|m: int| lo <= m < p ==> s[m] != c,
    ensures
        byte_pos(s, lo, hi, c) == p,
    decreases p - lo,
{
    if lo < p {
        lemma_byte_pos_at(s, lo + 1, hi, p, c);
    }
}

proof fn lemma_time_of_digits(n: nat)
    requires
        n <= u64::MAX,
    ensures
        time_value(dec_bytes(n)) == Some(n as u64),
        decimal_value(dec_bytes(n)) == Some(n as u64),
{
    let v = dec_bytes(n);
    lemma_dec_bytes(n);
    assert forall|m: int| 0 <= m < v.len() implies v[m] != 46u8 by {
        assert(is_digit(v[m]));
    }
    lemma_byte_pos_at(v, 0, v.len() as int, v.len() as int, 46u8);
}

/// The properties before the `k`-th taken from `f`, the others unset.
pub open spec fn partial(f: FieldsView, k: int) -> FieldsView {
    FieldsView {
        mode: if k > 0 { f.mode } else { None },
        ty: if k > 1 { f.ty } else { None },
        size: if k > 2 { f.size } else { None },
        link: if k > 3 { f.link } else { None },
        digest: if k > 4 { f.digest } else { None },
        time: if k > 5 { f.time } else { None },
    }
}

/// The `k`-th property of a writable entry is read back from its text.
proof fn lemma_field_reads_back(s: Seq<u8>, t: Span, f: FieldsView, k: int, e: EntryView)
    requires
        0 <= k < 6,
        writable(e),
        e.fields == f,
        field_text(f, k) is Some,
        t.start < t.end <= s.len(),
        s.subrange(t.start as int, t.end as int) == word_bytes(field_word(k)) + seq![61u8]
            + field_text(f, k)->Some_0,
    ensures
        path_field(s, t, partial(f, k)) == Ok::<FieldsView, crate::model::ErrorKind>(
            partial(f, k + 1),
        ),
{
    let w = word_bytes(field_word(k));
    let v = field_text(f, k)->Some_0;
    let a = t.start as int;
    let p = a + w.len();
    let tok = s.subrange(a, t.end as int);
    lemma_word_chars(field_word(k));
    assert(tok.len() == w.len() + 1 + v.len());
    assert forall|m: int| a <= m < p implies s[m] != 61u8 by {
        assert(s[m] == tok[m - a]);
        assert(tok[m - a] == w[m - a]);
        assert(word_char(w[m - a]));
    }
    assert(s[p] == tok[p - a]);
    assert(tok[p - a] == 61u8);
    lemma_byte_pos_at(s, a, t.end as int, p, 61u8);
    assert(key_end(s, t) == p);
    assert(key_of(s, t) =~= w);
    assert(value_of(s, t) == s.subrange(p + 1, t.end as int));
    assert forall|i: int| 0 <= i < v.len() implies s.subrange(p + 1, t.end as int)[i] == v[i] by {
        assert(s.subrange(p + 1, t.end as int)[i] == tok[p + 1 + i - a]);
    }
    assert(value_of(s, t) =~= v);
    lemma_words_distinct();
    if k == 1 {
        lemma_type_round_trip(f.ty->Some_0);
    } else if k == 2 {
        lemma_time_of_digits(f.size->Some_0 as nat);
    } else if k == 5 {
        lemma_time_of_digits(f.time->Some_0 as nat);
    } else if k == 4 {
        assert(digest_of(v) == Ok::<Seq<u8>, crate::model::ErrorKind>(v));
    }
    assert(partial(f, k + 1) == path_field(s, t, partial(f, k))->Ok_0);
}

proof fn lemma_scan_run(s: Seq<u8>, a: int, k: int, j: int, hi: int, acc: Seq<Span>)
    requires
        0 <= a < k <= j <= hi <= s.len(),
        forall|m: int| a <= m < j ==> !is_ws(#[trigger] s[m]),
        j < hi ==> is_ws(s[j]),
    ensures
        fields_from(s, k, hi, Some(a), acc) == fields_from(
            s,
            j,
            hi,
            None,
            acc.push(Span { start: a as usize, end: j as usize }),
        ),
    decreases j - k,
{
    if k < j {
        assert(!is_ws(s[k]));
        lemma_scan_run(s, a, k + 1, j, hi, acc);
    }
}

proof fn lemma_fields_from_prefix(s: Seq<u8>, i: int, hi: int, open: Option<int>, acc: Seq<Span>)
    ensures
        acc.len() <= fields_from(s, i, hi, open, acc).len(),
        forall|m: int| 0 <= m < acc.len() ==> #[trigger] fields_from(s, i, hi, open, acc)[m] == acc[m],
    decreases hi - i,
{
    if i >= hi {
    } else if is_ws(s[i]) {
        match open {
            Some(st) => {
                let a2 = acc.push(Span { start: st as usize, end: i as usize });
                lemma_fields_from_prefix(s, i + 1, hi, None, a2);
                assert forall|m: int| 0 <= m < acc.len() implies #[trigger] fields_from(s, i, hi, open, acc)[m] == acc[m] by {
                    assert(a2[m] == acc[m]);
                }
            },
            None => lemma_fields_from_prefix(s, i + 1, hi, None, acc),
        }
    } else {
        let o = match open {
            Some(st) => Some(st),
            None => Some(i),
        };
        lemma_fields_from_prefix(s, i + 1, hi, o, acc);
    }
}

/// The bytes of the `k`-th written property: a space, then bytes that are
/// neither whitespace nor newline.
proof fn lemma_item_shape(f: FieldsView, k: int, e: EntryView)
    requires
        writable(e),
        e.fields == f,
        0 <= k < 6,
        field_text(f, k) is Some,
    ensures
        item_of(f, k) == field_item(field_word(k), field_text(f, k)->Some_0),
        ({
            let v = field_text(f, k)->Some_0;
            let w = word_bytes(field_word(k));
            &&& forall|i: int| 0 <= i < w.len() ==> word_char(#[trigger] w[i])
            &&& plain(v)
        }),
{
    reveal(item_of);
    let v = field_text(f, k)->Some_0;
    lemma_word_chars(field_word(k));
    if k == 0 {
        assert forall|i: int| 0 <= i < v.len() implies !is_ws(#[trigger] v[i]) && v[i] != 10u8 by {
            assert(crate::value::is_octal(v[i]));
        }
    } else if k == 1 {
        lemma_type_round_trip(f.ty->Some_0);
    } else if k == 2 || k == 5 {
        let n = if k == 2 { f.size->Some_0 } else { f.time->Some_0 };
        lemma_dec_bytes(n as nat);
        assert forall|i: int| 0 <= i < v.len() implies !is_ws(#[trigger] v[i]) && v[i] != 10u8 by {
            assert(is_digit(v[i]));
        }
    } else if k == 4 {
        assert forall|i: int| 0 <= i < v.len() implies !is_ws(#[trigger] v[i]) && v[i] != 10u8 by {
            assert(crate::value::is_hex(v[i]));
        }
    }
}

/// The written properties from the `k`-th on start with a space where there
/// are any, and hold no newline.
proof fn lemma_fields_text_shape(f: FieldsView, k: int, e: EntryView)
    requires
        writable(e),
        e.fields == f,
        0 <= k <= 6,
    ensures
        fields_text(f, k).len() > 0 ==> fields_text(f, k)[0] == 32u8,
        forall|i: int| 0 <= i < fields_text(f, k).len() ==> #[trigger] fields_text(f, k)[i] != 10u8,
    decreases 6 - k,
{
    if k < 6 {
        lemma_fields_text_shape(f, k + 1, e);
        let rest = fields_text(f, k + 1);
        let item = item_of(f, k);
        assert(fields_text(f, k) == item + rest);
        if field_text(f, k) is Some {
            lemma_item_shape(f, k, e);
            let v = field_text(f, k)->Some_0;
            let w = word_bytes(field_word(k));
            assert forall|i: int| 0 <= i < fields_text(f, k).len() implies #[trigger] fields_text(f, k)[i] != 10u8 by {
                if i < item.len() {
                    if 1 <= i < 1 + w.len() {
                        assert(item[i] == w[i - 1]);
                        assert(word_char(w[i - 1]));
                    } else if i >= 2 + w.len() {
                        assert(item[i] == v[i - 2 - w.len()]);
                    }
                } else {
                    assert(fields_text(f, k)[i] == rest[i - item.len()]);
                }
            }
        } else {
            reveal(item_of);
            assert(fields_text(f, k) =~= rest);
        }
    }
}

/// Reading the written properties from the `k`-th on, which stand at
/// `s[i..hi]`, completes the properties before them to all of `f`.
proof fn lemma_read_fields(
    s: Seq<u8>,
    i: int,
    hi: int,
    f: FieldsView,
    e: EntryView,
    k: int,
    acc: Seq<Span>,
    d: Seq<crate::model::Diagnostic>,
)
    requires
        writable(e),
        e.fields == f,
        0 <= k <= 6,
        0 <= i <= hi <= s.len() <= usize::MAX,
        s.subrange(i, hi) == fields_text(f, k),
    ensures
        path_fields(s, fields_from(s, i, hi, None, acc), acc.len() as int, partial(f, k), d) == (
            f,
            d,
        ),
    decreases 6 - k,
{
    if k == 6 {
        assert(s.subrange(i, hi).len() == 0);
        assert(partial(f, k) == f);
    } else {
        let rest = fields_text(f, k + 1);
        assert(fields_text(f, k) == item_of(f, k) + rest);
        if field_text(f, k) is None {
            reveal(item_of);
            assert(fields_text(f, k) =~= rest);
            assert(partial(f, k) == partial(f, k + 1));
            lemma_read_fields(s, i, hi, f, e, k + 1, acc, d);
        } else {
            lemma_item_shape(f, k, e);
            lemma_fields_text_shape(f, k + 1, e);
            let v = field_text(f, k)->Some_0;
            let w = word_bytes(field_word(k));
            let item = item_of(f, k);
            let len = item.len() as int;
            let j = i + len;
            let whole = s.subrange(i, hi);
            assert(len == 2 + w.len() + v.len());
            assert(s[i] == whole[0]);
            assert(whole[0] == 32u8);
            assert(s.subrange(j, hi) =~= rest) by {
                assert forall|x: int| 0 <= x < rest.len() implies s.subrange(j, hi)[x] == rest[x] by {
                    assert(s.subrange(j, hi)[x] == whole[len + x]);
                }
            }
            assert(s.subrange(i + 1, j) =~= w + seq![61u8] + v) by {
                assert forall|x: int| 0 <= x < len - 1 implies s.subrange(i + 1, j)[x] == (w + seq![
                    61u8,
                ] + v)[x] by {
                    assert(s.subrange(i + 1, j)[x] == whole[1 + x]);
                    assert(whole[1 + x] == item[1 + x]);
                }
            }
            assert forall|m: int| i + 1 <= m < j implies !is_ws(#[trigger] s[m]) by {
                assert(s[m] == whole[m - i]);
                assert(whole[m - i] == item[m - i]);
                if m - i < 1 + w.len() {
                    assert(item[m - i] == w[m - i - 1]);
                    assert(word_char(w[m - i - 1]));
                } else if m - i > 1 + w.len() {
                    assert(item[m - i] == v[m - i - 2 - w.len()]);
                }
            }
            if j < hi {
                assert(s[j] == rest[0]);
            }
            let tok = Span { start: (i + 1) as usize, end: j as usize };
            let acc2 = acc.push(tok);
            assert(fields_from(s, i, hi, None, acc) == fields_from(s, i + 1, hi, None, acc));
            assert(fields_from(s, i + 1, hi, None, acc) == fields_from(s, i + 2, hi, Some(i + 1), acc));
            lemma_scan_run(s, i + 1, i + 2, j, hi, acc);
            let spans = fields_from(s, j, hi, None, acc2);
            lemma_fields_from_prefix(s, j, hi, None, acc2);
            assert(spans[acc.len() as int] == tok);
            lemma_field_reads_back(s, tok, f, k, e);
            lemma_read_fields(s, j, hi, f, e, k + 1, acc2, d);
        }
    }
}

/// The path line of a writable entry, at `s[lo..hi]` without its newline,
/// parses to that entry, without a diagnostic.
proof fn lemma_line_reads_back(s: Seq<u8>, lo: int, hi: int, e: EntryView)
    requires
        writable(e),
        0 <= lo <= hi <= s.len() <= usize::MAX,
        s.subrange(lo, hi) == e.path + fields_text(e.fields, 0),
    ensures
        line_statement(s, lo, hi) == (
            Some(StatementView::Path(e)),
            Seq::<crate::model::Diagnostic>::empty(),
        ),
{
    let f = e.fields;
    let whole = s.subrange(lo, hi);
    let p = lo + e.path.len();
    lemma_fields_text_shape(f, 0, e);
    assert(whole.len() == e.path.len() + fields_text(f, 0).len());
    assert(p <= hi);
    assert(s.subrange(p, hi) =~= fields_text(f, 0)) by {
        assert forall|x: int| 0 <= x < hi - p implies s.subrange(p, hi)[x] == fields_text(f, 0)[x] by {
            assert(s.subrange(p, hi)[x] == whole[e.path.len() + x]);
            assert(whole[e.path.len() + x] == (e.path + fields_text(f, 0))[e.path.len() + x]);
        }
    }
    assert forall|m: int| lo <= m < p implies !is_ws(#[trigger] s[m]) by {
        assert(s[m] == whole[m - lo]);
        assert(whole[m - lo] == e.path[m - lo]);
    }
    assert(s[lo] == whole[0]);
    if p < hi {
        assert(s[p] == fields_text(f, 0)[0]);
    }
    let first = Span { start: lo as usize, end: p as usize };
    let acc = seq![first];
    assert(fields(s, lo, hi) == fields_from(s, lo + 1, hi, Some(lo), Seq::<Span>::empty()));
    lemma_scan_run(s, lo, lo + 1, p, hi, Seq::<Span>::empty());
    assert(Seq::<Span>::empty().push(first) == acc);
    lemma_fields_from_prefix(s, p, hi, None, acc);
    lemma_read_fields(s, p, hi, f, e, 0, acc, Seq::<crate::model::Diagnostic>::empty());
    assert(partial(f, 0) == no_fields());
    let toks = fields(s, lo, hi);
    assert(toks[0] == first);
    lemma_path_line_yields_entry(s, lo, hi);
    assert(s.subrange(lo, p) =~= e.path) by {
        assert forall|x: int| 0 <= x < e.path.len() implies s.subrange(lo, p)[x] == e.path[x] by {
            assert(s.subrange(lo, p)[x] == whole[x]);
        }
    }
}

proof fn lemma_run_line(s: Seq<u8>, i: int, ls: int, j: int, r: ResolverView)
    requires
        0 <= ls <= i <= j < s.len(),
        forall|m: int| ls <= m < j ==> #[trigger] s[m] != 10u8,
        s[j] == 10u8,
    ensures
        run(s, i, ls, r) == run(s, j + 1, j + 1, line_step(s, ls, j, r)),
    decreases j - i,
{
    if i < j {
        assert(s[i] != 10u8);
        lemma_run_line(s, i + 1, ls, j, r);
    }
}

proof fn lemma_render_front(es: Seq<EntryView>)
    requires
        es.len() > 0,
    ensures
        render_spec(es) == entry_line(es[0]) + render_spec(es.drop_first()),
    decreases es.len(),
{
    if es.len() == 1 {
        assert(es.drop_last() =~= Seq::<EntryView>::empty());
        assert(es.drop_first() =~= Seq::<EntryView>::empty());
        assert(render_spec(es) =~= entry_line(es[0]) + Seq::<u8>::empty());
    } else {
        let a = es.drop_last();
        lemma_render_front(a);
        assert(a.drop_first() =~= es.drop_first().drop_last());
        assert(es.drop_first().last() == es.last());
        assert(render_spec(es) =~= entry_line(es[0]) + render_spec(es.drop_first()));
    }
}

proof fn lemma_run_rendered(s: Seq<u8>, p: int, es: Seq<EntryView>, r: ResolverView)
    requires
        0 <= p <= s.len() <= usize::MAX,
        s.subrange(p, s.len() as int) == render_spec(es),
        forall|i: int| 0 <= i < es.len() ==> writable(#[trigger] es[i]),
        r.scope == no_defaults(),
    ensures
        run(s, p, p, r).entries == r.entries + es,
        run(s, p, p, r).diagnostics == r.diagnostics,
    decreases es.len(),
{
    if es.len() == 0 {
        assert(s.subrange(p, s.len() as int).len() == 0);
        assert(r.entries + es =~= r.entries);
    } else {
        let e = es[0];
        assert(writable(e));
        lemma_render_front(es);
        let body = e.path + fields_text(e.fields, 0);
        let line = entry_line(e);
        let j = p + body.len();
        let whole = s.subrange(p, s.len() as int);
        assert(line == body + seq![10u8]);
        assert(whole == line + render_spec(es.drop_first()));
        assert(whole.len() == line.len() + render_spec(es.drop_first()).len());
        assert(line.len() == body.len() + 1);
        assert(j < s.len());
        lemma_fields_text_shape(e.fields, 0, e);
        assert(s.subrange(p, j) =~= body) by {
            assert forall|x: int| 0 <= x < body.len() implies s.subrange(p, j)[x] == body[x] by {
                assert(s.subrange(p, j)[x] == whole[x]);
                assert(whole[x] == line[x]);
            }
        }
        assert(s[j] == 10u8) by {
            assert(s[j] == whole[body.len() as int]);
            assert(whole[body.len() as int] == line[body.len() as int]);
        }
        assert forall|m: int| p <= m < j implies #[trigger] s[m] != 10u8 by {
            assert(s[m] == body[m - p]);
            if m - p >= e.path.len() {
                assert(body[m - p] == fields_text(e.fields, 0)[m - p - e.path.len()]);
            }
        }
        lemma_run_line(s, p, p, j, r);
        lemma_line_reads_back(s, p, j, e);
        let r1 = line_step(s, p, j, r);
        assert(r.diagnostics + Seq::<crate::model::Diagnostic>::empty() =~= r.diagnostics);
        assert(resolve(no_defaults(), e) == e);
        assert(r1.entries == r.entries.push(e));
        assert(r1.diagnostics == r.diagnostics);
        assert(s.subrange(j + 1, s.len() as int) =~= render_spec(es.drop_first())) by {
            let rest = render_spec(es.drop_first());
            assert forall|x: int| 0 <= x < rest.len() implies s.subrange(j + 1, s.len() as int)[x]
                == rest[x] by {
                assert(s.subrange(j + 1, s.len() as int)[x] == whole[line.len() + x]);
            }
        }
        assert forall|i: int| 0 <= i < es.drop_first().len() implies writable(
            #[trigger] es.drop_first()[i],
        ) by {
            assert(es.drop_first()[i] == es[i + 1]);
        }
        lemma_run_rendered(s, j + 1, es.drop_first(), r1);
        assert(r.entries.push(e) + es.drop_first() =~= r.entries + es);
    }
}

/// Writing entries and parsing the text gives back the same entries, in the
/// same order, with no diagnostic: for entries that their path lines describe
/// exactly, and text that fits in memory.
pub proof fn lemma_round_trip(es: Seq<EntryView>)
    requires
        forall|i: int| 0 <= i < es.len() ==> writable(#[trigger] es[i]),
        render_spec(es).len() <= usize::MAX,
    ensures
        parse_spec(render_spec(es)).entries == es,
        parse_spec(render_spec(es)).diagnostics == Seq::<crate::model::Diagnostic>::empty(),
{
    let s = render_spec(es);
    assert(s.subrange(0, s.len() as int) =~= s);
    lemma_run_rendered(s, 0, es, initial());
    assert(initial().entries + es =~= es);
}

/// Field values that their path line can state: a mode of octal digits, a
/// link without whitespace or newline, a digest of 64 hexadecimal digits.
pub open spec fn fields_ok(f: FieldsView) -> bool {
    &&& (f.mode matches Some(m) ==> mode_ok(m))
    &&& (f.link matches Some(l) ==> plain(l))
    &&& (f.digest matches Some(d) ==> d.len() == DIGEST_LEN && all_hex(d))
}

pub open spec fn defaults_ok(d: DefaultsView) -> bool {
    d.mode matches Some(m) ==> mode_ok(m)
}

/// The bytes of `t` hold no whitespace or newline.
pub open spec fn span_plain(s: Seq<u8>, t: Span) -> bool {
    forall|m: int| t.start <= m < t.end ==> !is_ws(#[trigger] s[m]) && s[m] != 10u8
}

pub open spec fn span_nonws(s: Seq<u8>, t: Span) -> bool {
    forall|m: int| t.start <= m < t.end ==> !is_ws(#[trigger] s[m])
}

proof fn lemma_fields_from_nonws(s: Seq<u8>, i: int, hi: int, open: Option<int>, acc: Seq<Span>)
    requires
        0 <= i <= hi <= s.len() <= usize::MAX,
        open is Some ==> 0 <= open->0 <= i && forall|m: int| open->0 <= m < i ==> !is_ws(
            #[trigger] s[m],
        ),
        forall|k: int| 0 <= k < acc.len() ==> span_nonws(s, #[trigger] acc[k]),
    ensures
        forall|k: int|
            0 <= k < fields_from(s, i, hi, open, acc).len() ==> span_nonws(
                s,
                #[trigger] fields_from(s, i, hi, open, acc)[k],
            ),
    decreases hi - i,
{
    let r = fields_from(s, i, hi, open, acc);
    if i >= hi {
        if let Some(st) = open {
            let a2 = acc.push(Span { start: st as usize, end: hi as usize });
            assert forall|k: int| 0 <= k < a2.len() implies span_nonws(s, #[trigger] a2[k]) by {
                if k < acc.len() {
                    assert(a2[k] == acc[k]);
                }
            }
            assert(r == a2);
        }
    } else if is_ws(s[i]) {
        match open {
            Some(st) => {
                let a2 = acc.push(Span { start: st as usize, end: i as usize });
                assert forall|k: int| 0 <= k < a2.len() implies span_nonws(s, #[trigger] a2[k]) by {
                    if k < acc.len() {
                        assert(a2[k] == acc[k]);
                    }
                }
                lemma_fields_from_nonws(s, i + 1, hi, None, a2);
                assert(r == fields_from(s, i + 1, hi, None, a2));
            },
            None => {
                lemma_fields_from_nonws(s, i + 1, hi, None, acc);
                assert(r == fields_from(s, i + 1, hi, None, acc));
            },
        }
    } else {
        let o = match open {
            Some(st) => Some(st),
            None => Some(i),
        };
        lemma_fields_from_nonws(s, i + 1, hi, o, acc);
        assert(r == fields_from(s, i + 1, hi, o, acc));
    }
}

/// Every field of a line without a newline is within the line and holds no
/// whitespace or newline.
proof fn lemma_line_fields_plain(s: Seq<u8>, lo: int, hi: int)
    requires
        0 <= lo <= hi <= s.len() <= usize::MAX,
        forall|m: int| lo <= m < hi ==> #[trigger] s[m] != 10u8,
    ensures
        forall|k: int|
            0 <= k < fields(s, lo, hi).len() ==> span_within(#[trigger] fields(s, lo, hi)[k], lo, hi)
                && span_plain(s, fields(s, lo, hi)[k]),
{
    lemma_fields_from_within(s, lo, hi, None, seq![], lo);
    lemma_fields_from_nonws(s, lo, hi, None, seq![]);
    let toks = fields(s, lo, hi);
    assert forall|k: int| 0 <= k < toks.len() implies span_within(#[trigger] toks[k], lo, hi)
        && span_plain(s, toks[k]) by {
        assert(span_nonws(s, toks[k]));
        assert forall|m: int| toks[k].start <= m < toks[k].end implies !is_ws(#[trigger] s[m])
            && s[m] != 10u8 by {
            assert(!is_ws(s[m]));
        }
    }
}

proof fn lemma_value_plain(s: Seq<u8>, t: Span)
    requires
        t.start <= t.end <= s.len(),
        span_plain(s, t),
    ensures
        plain(value_of(s, t)),
{
    lemma_byte_pos_bounds(s, t.start as int, t.end as int, 61u8);
    let e = key_end(s, t);
    if e < t.end {
        let v = value_of(s, t);
        assert forall|i: int| 0 <= i < v.len() implies !is_ws(#[trigger] v[i]) && v[i] != 10u8 by {
            assert(v[i] == s[e + 1 + i]);
        }
    }
}

proof fn lemma_path_fields_ok(
    s: Seq<u8>,
    toks: Seq<Span>,
    k: int,
    f: FieldsView,
    d: Seq<Diagnostic>,
)
    requires
        forall|j: int|
            0 <= j < toks.len() ==> span_within(#[trigger] toks[j], 0, s.len() as int)
                && span_plain(s, toks[j]),
        fields_ok(f),
    ensures
        fields_ok(path_fields(s, toks, k, f, d).0),
    decreases toks.len() - k,
{
    if 0 <= k < toks.len() {
        let t = toks[k];
        assert(span_within(t, 0, s.len() as int) && span_plain(s, t));
        lemma_value_plain(s, t);
        match path_field(s, t, f) {
            Ok(f2) => {
                assert(fields_ok(f2));
                lemma_path_fields_ok(s, toks, k + 1, f2, d);
            },
            Err(e) => lemma_path_fields_ok(s, toks, k + 1, f, d.push(crate::grammar::field_diag(e, t))),
        }
    }
}

proof fn lemma_default_fields_ok(
    s: Seq<u8>,
    toks: Seq<Span>,
    k: int,
    a: DefaultsView,
    d: Seq<Diagnostic>,
)
    requires
        defaults_ok(a),
    ensures
        defaults_ok(default_fields(s, toks, k, a, d).0),
    decreases toks.len() - k,
{
    if 0 <= k < toks.len() {
        let t = toks[k];
        match default_field(s, t, a) {
            Ok(a2) => lemma_default_fields_ok(s, toks, k + 1, a2, d),
            Err(e) => lemma_default_fields_ok(s, toks, k + 1, a, d.push(crate::grammar::field_diag(e, t))),
        }
    }
}

/// What a line without a newline yields can be written back: a path line gives
/// a writable entry before resolution, and `/set` gives defaults of valid values.
proof fn lemma_line_statement_ok(s: Seq<u8>, lo: int, hi: int)
    requires
        0 <= lo <= hi <= s.len() <= usize::MAX,
        forall|m: int| lo <= m < hi ==> #[trigger] s[m] != 10u8,
    ensures
        line_statement(s, lo, hi).0 matches Some(StatementView::Path(e)) ==> writable(e),
        line_statement(s, lo, hi).0 matches Some(StatementView::SetDefaults(a)) ==> defaults_ok(a),
{
    lemma_line_fields_plain(s, lo, hi);
    let toks = fields(s, lo, hi);
    lemma_path_fields_ok(s, toks, 1, no_fields(), seq![]);
    lemma_default_fields_ok(s, toks, 1, no_defaults(), seq![]);
    if toks.len() > 0 {
        let t = toks[0];
        assert(span_within(t, lo, hi) && span_plain(s, t));
        let first = s.subrange(t.start as int, t.end as int);
        assert forall|i: int| 0 <= i < first.len() implies !is_ws(#[trigger] first[i])
            && first[i] != 10u8 by {
            assert(first[i] == s[t.start + i]);
        }
    }
}

/// The state reached after the input up to byte `i` keeps only writable
/// entries and valid defaults, whatever the rest of the input holds.
proof fn lemma_run_ok(s: Seq<u8>, i: int, ls: int, r: ResolverView)
    requires
        0 <= ls <= i <= s.len() <= usize::MAX,
        forall|m: int| ls <= m < i ==> #[trigger] s[m] != 10u8,
        forall|k: int| 0 <= k < r.entries.len() ==> writable(#[trigger] r.entries[k]),
        defaults_ok(r.scope),
    ensures
        forall|k: int|
            0 <= k < run(s, i, ls, r).entries.len() ==> writable(#[trigger] run(s, i, ls, r).entries[k]),
    decreases s.len() - i,
{
    if i >= s.len() {
    } else if s[i] == 10u8 {
        lemma_line_statement_ok(s, ls, i);
        let (st, d) = line_statement(s, ls, i);
        let r1 = ResolverView { diagnostics: r.diagnostics + d, ..r };
        let r2 = line_step(s, ls, i, r);
        assert(defaults_ok(r2.scope)) by {
            if let Some(StatementView::SetDefaults(a)) = st {
                assert(r2.scope == apply_set(r.scope, a));
            }
        }
        assert forall|k: int| 0 <= k < r2.entries.len() implies writable(#[trigger] r2.entries[k]) by {
            if k < r.entries.len() {
                if let Some(x) = st {
                    assert(r2 == step(r1, x, ls, i));
                }
                assert(r2.entries[k] == r.entries[k]);
            } else {
                let e = st->Some_0->Path_0;
                assert(r2.entries[k] == resolve(r.scope, e));
            }
        }
        lemma_run_ok(s, i + 1, i + 1, r2);
    } else {
        lemma_run_ok(s, i + 1, ls, r);
    }
}

/// Every entry that a parse yields can be written back as a path line.
pub proof fn lemma_parsed_writable(s: Seq<u8>)
    requires
        s.len() <= usize::MAX,
    ensures
        forall|k: int|
            0 <= k < parse_spec(s).entries.len() ==> writable(#[trigger] parse_spec(s).entries[k]),
{
    lemma_run_ok(s, 0, 0, initial());
}

/// Parsing any text, writing the entries and parsing the written text gives the
/// same entries, in the same order, with no diagnostic.
pub proof fn lemma_parse_render_parse(s: Seq<u8>)
    requires
        s.len() <= usize::MAX,
        render_spec(parse_spec(s).entries).len() <= usize::MAX,
    ensures
        parse_spec(render_spec(parse_spec(s).entries)).entries == parse_spec(s).entries,
        parse_spec(render_spec(parse_spec(s).entries)).diagnostics == Seq::<Diagnostic>::empty(),
{
    lemma_parsed_writable(s);
    lemma_round_trip(parse_spec(s).entries);
}

} // verus!
