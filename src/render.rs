//! Writing entries back out as path lines of the manifest format.
use vstd::prelude::*;
use crate::model::{Entry, EntryView, FieldsView};
use crate::resolve::entry_views;
use crate::value::{all_digits, decimal, is_digit, word_bytes, word_vec, PathType, Word};

verus! {

/// The base-10 digits of `n`, without leading zeros.
pub open spec fn dec_bytes(n: nat) -> Seq<u8>
    decreases n,
{
    if n < 10 {
        seq![(48 + n) as u8]
    } else {
        dec_bytes(n / 10).push((48 + n % 10) as u8)
    }
}

pub proof fn lemma_dec_bytes(n: nat)
    ensures
        dec_bytes(n).len() > 0,
        all_digits(dec_bytes(n)),
        decimal(dec_bytes(n)) == n,
    decreases n,
{
    let v = dec_bytes(n);
    if n < 10 {
        assert(v.drop_last() =~= Seq::<u8>::empty());
        assert(decimal(v.drop_last()) == 0);
        assert(v.last() - 48u8 == n);
    } else {
        lemma_dec_bytes(n / 10);
        let w = dec_bytes(n / 10);
        assert(v.drop_last() =~= w);
        assert forall|i: int| 0 <= i < v.len() implies is_digit(#[trigger] v[i]) by {
            if i < w.len() {
                assert(v[i] == w[i]);
            }
        }
        assert((n / 10) * 10 + n % 10 == n) by (nonlinear_arith);
        assert(v.last() == (48 + n % 10) as u8);
        assert(v.last() - 48u8 == n % 10);
        assert(decimal(v) == decimal(w) * 10 + (v.last() - 48u8) as nat);
    }
}

/// Appends the base-10 digits of `n` to `out`.
pub fn write_decimal(out: &mut Vec<u8>, n: u64)
    ensures
        final(out)@ == old(out)@ + dec_bytes(n as nat),
    decreases n,
{
    if n >= 10 {
        write_decimal(out, n / 10);
    }
    out.push(48u8 + (n % 10) as u8);
    proof {
        assert(final(out)@ =~= old(out)@ + dec_bytes(n as nat));
    }
}

/// The word that names a path type.
pub open spec fn type_bytes(t: PathType) -> Seq<u8> {
    match t {
        PathType::Dir => word_bytes(Word::Dir),
        PathType::File => word_bytes(Word::File),
        PathType::Link => word_bytes(Word::Link),
    }
}

/// A field as written after a path: a space, the key, `=` and the value.
pub open spec fn field_item(w: Word, v: Seq<u8>) -> Seq<u8> {
    seq![32u8] + word_bytes(w) + seq![61u8] + v
}

/// The key of the `k`-th property, in the order they are written.
pub open spec fn field_word(k: int) -> Word {
    if k == 0 {
        Word::Mode
    } else if k == 1 {
        Word::Type
    } else if k == 2 {
        Word::Size
    } else if k == 3 {
        Word::Link
    } else if k == 4 {
        Word::Digest
    } else {
        Word::Time
    }
}

/// The text of the `k`-th property of `f`, where it is set.
pub open spec fn field_text(f: FieldsView, k: int) -> Option<Seq<u8>> {
    if k == 0 {
        f.mode
    } else if k == 1 {
        match f.ty {
            Some(t) => Some(type_bytes(t)),
            None => None,
        }
    } else if k == 2 {
        match f.size {
            Some(n) => Some(dec_bytes(n as nat)),
            None => None,
        }
    } else if k == 3 {
        f.link
    } else if k == 4 {
        f.digest
    } else if k == 5 {
        match f.time {
            Some(n) => Some(dec_bytes(n as nat)),
            None => None,
        }
    } else {
        None
    }
}

/// The `k`-th property of `f` as written, or nothing where it is not set.
#[verifier::opaque]
pub open spec fn item_of(f: FieldsView, k: int) -> Seq<u8> {
    match field_text(f, k) {
        Some(v) => field_item(field_word(k), v),
        None => seq![],
    }
}

proof fn lemma_fields_text_unfold(f: FieldsView)
    ensures
        fields_text(f, 0) == item_of(f, 0) + (item_of(f, 1) + (item_of(f, 2) + (item_of(f, 3) + (
        item_of(f, 4) + item_of(f, 5))))),
{
    let (i0, i1, i2, i3, i4, i5) = (
        item_of(f, 0),
        item_of(f, 1),
        item_of(f, 2),
        item_of(f, 3),
        item_of(f, 4),
        item_of(f, 5),
    );
    assert(fields_text(f, 6) == Seq::<u8>::empty());
    assert(fields_text(f, 5) == i5 + fields_text(f, 6));
    assert(fields_text(f, 4) == i4 + fields_text(f, 5));
    assert(fields_text(f, 3) == i3 + fields_text(f, 4));
    assert(fields_text(f, 2) == i2 + fields_text(f, 3));
    assert(fields_text(f, 1) == i1 + fields_text(f, 2));
    assert(fields_text(f, 0) == i0 + fields_text(f, 1));
    assert(i5 + Seq::<u8>::empty() =~= i5);
}

/// The set properties of `f` from the `k`-th on, as written after a path.
pub open spec fn fields_text(f: FieldsView, k: int) -> Seq<u8>
    decreases 6 - k,
{
    if k >= 6 {
        seq![]
    } else {
        item_of(f, k) + fields_text(f, k + 1)
    }
}

/// An entry as one path line: its path, its set properties, a newline.
pub open spec fn entry_line(e: EntryView) -> Seq<u8> {
    e.path + fields_text(e.fields, 0) + seq![10u8]
}

/// Entries as path lines, one after another.
pub open spec fn render_spec(es: Seq<EntryView>) -> Seq<u8>
    decreases es.len(),
{
    if es.len() == 0 {
        seq![]
    } else {
        render_spec(es.drop_last()) + entry_line(es.last())
    }
}

fn push_all(out: &mut Vec<u8>, v: &[u8])
    ensures
        final(out)@ == old(out)@ + v@,
{
    let mut i: usize = 0;
    while i < v.len()
        invariant
            i <= v@.len(),
            out@ == old(out)@ + v@.subrange(0, i as int),
        decreases v@.len() - i,
    {
        out.push(v[i]);
        i = i + 1;
        proof {
            assert(out@ =~= old(out)@ + v@.subrange(0, i as int));
        }
    }
    proof {
        assert(v@.subrange(0, i as int) =~= v@);
    }
}

fn write_key(out: &mut Vec<u8>, w: Word)
    ensures
        final(out)@ == old(out)@ + seq![32u8] + word_bytes(w) + seq![61u8],
{
    out.push(32u8);
    let wv = word_vec(w);
    push_all(out, wv.as_slice());
    out.push(61u8);
    proof {
        assert(final(out)@ =~= old(out)@ + seq![32u8] + word_bytes(w) + seq![61u8]);
    }
}

fn write_bytes_field(out: &mut Vec<u8>, w: Word, v: &Option<Vec<u8>>)
    ensures
        final(out)@ == old(out)@ + match crate::model::opt_bytes(*v) {
            Some(b) => field_item(w, b),
            None => seq![],
        },
{
    match v {
        Some(b) => {
            write_key(out, w);
            push_all(out, b.as_slice());
            proof {
                assert(final(out)@ =~= old(out)@ + field_item(w, b@));
            }
        },
        None => {
            proof {
                assert(final(out)@ =~= old(out)@ + Seq::<u8>::empty());
            }
        },
    }
}

fn write_number_field(out: &mut Vec<u8>, w: Word, v: Option<u64>)
    ensures
        final(out)@ == old(out)@ + match v {
            Some(n) => field_item(w, dec_bytes(n as nat)),
            None => seq![],
        },
{
    match v {
        Some(n) => {
            write_key(out, w);
            write_decimal(out, n);
            proof {
                assert(final(out)@ =~= old(out)@ + field_item(w, dec_bytes(n as nat)));
            }
        },
        None => {
            proof {
                assert(final(out)@ =~= old(out)@ + Seq::<u8>::empty());
            }
        },
    }
}

fn type_word(t: PathType) -> (r: Word)
    ensures
        word_bytes(r) == type_bytes(t),
{
    match t {
        PathType::Dir => Word::Dir,
        PathType::File => Word::File,
        PathType::Link => Word::Link,
    }
}

proof fn lemma_line_pieces(
    o: Seq<u8>,
    p: Seq<u8>,
    i0: Seq<u8>,
    i1: Seq<u8>,
    i2: Seq<u8>,
    i3: Seq<u8>,
    i4: Seq<u8>,
    i5: Seq<u8>,
)
    ensures
        o + p + i0 + i1 + i2 + i3 + i4 + i5 + seq![10u8] == o + (p + (i0 + (i1 + (i2 + (i3 + (i4
            + i5))))) + seq![10u8]),
{
    assert(o + p + i0 + i1 + i2 + i3 + i4 + i5 + seq![10u8] =~= o + (p + (i0 + (i1 + (i2 + (i3 + (
    i4 + i5))))) + seq![10u8]));
}

/// Appends the path line of `e` to `out`.
pub fn write_entry(out: &mut Vec<u8>, e: &Entry)
    ensures
        final(out)@ == old(out)@ + entry_line(e@),
{
    let ghost f = e.fields@;
    proof {
        reveal(item_of);
    }
    push_all(out, e.path.as_slice());
    let ghost s0 = out@;
    write_bytes_field(out, Word::Mode, &e.fields.mode);
    let ghost s1 = out@;
    match e.fields.ty {
        Some(t) => {
            let tw = type_word(t);
            let tv = word_vec(tw);
            write_key(out, Word::Type);
            push_all(out, tv.as_slice());
        },
        None => {},
    }
    proof {
        assert(out@ =~= s1 + item_of(f, 1));
    }
    let ghost s2 = out@;
    write_number_field(out, Word::Size, e.fields.size);
    let ghost s3 = out@;
    write_bytes_field(out, Word::Link, &e.fields.link);
    let ghost s4 = out@;
    write_bytes_field(out, Word::Digest, &e.fields.digest);
    let ghost s5 = out@;
    write_number_field(out, Word::Time, e.fields.time);
    out.push(10u8);
    proof {
        lemma_fields_text_unfold(f);
        lemma_line_pieces(
            old(out)@,
            e.path@,
            item_of(f, 0),
            item_of(f, 1),
            item_of(f, 2),
            item_of(f, 3),
            item_of(f, 4),
            item_of(f, 5),
        );
    }
}

/// The entries as text of the manifest format: one path line each, in order.
pub fn render(entries: &Vec<Entry>) -> (r: Vec<u8>)
    ensures
        r@ == render_spec(entry_views(entries@)),
{
    let mut out: Vec<u8> = Vec::new();
    let ghost es = entry_views(entries@);
    let mut k: usize = 0;
    while k < entries.len()
        invariant
            k <= entries@.len(),
            es == entry_views(entries@),
            out@ == render_spec(es.subrange(0, k as int)),
        decreases entries@.len() - k,
    {
        write_entry(&mut out, &entries[k]);
        proof {
            let t = es.subrange(0, k + 1);
            assert(t.drop_last() =~= es.subrange(0, k as int));
            assert(t.last() == entries@[k as int]@);
        }
        k = k + 1;
    }
    proof {
        assert(es.subrange(0, k as int) =~= es);
    }
    out
}

} // verus!
