//! Parsing a whole manifest: the input is read line by line, each line's
//! statement is applied to the resolver, and the entries come out in the order
//! of their path lines.
use vstd::prelude::*;
use crate::grammar::{line_statement, parse_statement};
use crate::model::{Diagnostic, Entry, EntryView, ErrorKind};
use crate::resolve::{entry_views, initial, step, Resolver, ResolverView};

verus! {

/// The state after the line `s[lo..hi]`: its problems, then its statement.
pub open spec fn line_step(s: Seq<u8>, lo: int, hi: int, r: ResolverView) -> ResolverView {
    let (st, d) = line_statement(s, lo, hi);
    let r1 = ResolverView { diagnostics: r.diagnostics + d, ..r };
    match st {
        Some(x) => step(r1, x, lo, hi),
        None => r1,
    }
}

/// The state after the rest of the input from byte `i`, where the current line
/// began at `ls`. Each line ends at a newline; text after the last newline is
/// an unterminated directive, which is reported and not applied.
pub open spec fn run(s: Seq<u8>, i: int, ls: int, r: ResolverView) -> ResolverView
    decreases s.len() - i,
{
    if i >= s.len() {
        if ls < s.len() {
            ResolverView {
                diagnostics: r.diagnostics.push(
                    Diagnostic {
                        kind: ErrorKind::UnterminatedDirective,
                        offset: ls as usize,
                        length: (s.len() - ls) as usize,
                    },
                ),
                ..r
            }
        } else {
            r
        }
    } else if s[i] == 10u8 {
        run(s, i + 1, i + 1, line_step(s, ls, i, r))
    } else {
        run(s, i + 1, ls, r)
    }
}

/// The result of parsing the whole input `s`.
pub open spec fn parse_spec(s: Seq<u8>) -> ResolverView {
    run(s, 0, 0, initial())
}

/// The outcome of a parse: the resolved entries in source order, and every
/// problem found, in the order found.
#[derive(Debug)]
pub struct Manifest {
    pub entries: Vec<Entry>,
    pub diagnostics: Vec<Diagnostic>,
}

pub struct ManifestView {
    pub entries: Seq<EntryView>,
    pub diagnostics: Seq<Diagnostic>,
}

impl View for Manifest {
    type V = ManifestView;

    open spec fn view(&self) -> ManifestView {
        ManifestView { entries: entry_views(self.entries@), diagnostics: self.diagnostics@ }
    }
}

/// Parses a manifest held in `input`.
pub fn parse(input: &[u8]) -> (m: Manifest)
    ensures
        m@.entries == parse_spec(input@).entries,
        m@.diagnostics == parse_spec(input@).diagnostics,
{
    let mut r = Resolver::new();
    let n = input.len();
    let mut ls: usize = 0;
    let mut i: usize = 0;
    while i < n
        invariant
            n == input@.len(),
            ls <= i <= n,
            run(input@, i as int, ls as int, r@) == parse_spec(input@),
        decreases n - i,
    {
        if input[i] == 10u8 {
            let ghost before = r@;
            let st = parse_statement(input, ls, i, &mut r.diagnostics);
            proof {
                assert(r@ == ResolverView {
                    diagnostics: before.diagnostics + line_statement(input@, ls as int, i as int).1,
                    ..before
                });
            }
            match st {
                Some(x) => r.apply(x, ls, i),
                None => {},
            }
            ls = i + 1;
        }
        i = i + 1;
    }
    if ls < n {
        r.diagnostics.push(
            Diagnostic { kind: ErrorKind::UnterminatedDirective, offset: ls, length: n - ls },
        );
    }
    Manifest { entries: r.entries, diagnostics: r.diagnostics }
}

} // verus!
