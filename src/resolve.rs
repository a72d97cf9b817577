//! The default-scope resolver: `/set` and `/unset` change the ambient defaults,
//! and each path line is resolved against them into a manifest entry.
use vstd::prelude::*;
use crate::lex::copy_bytes;
use crate::model::{
    no_defaults, Defaults, DefaultsView, Diagnostic, Entry, EntryView, ErrorKind, Fields,
    FieldsView, Statement, StatementView, UnsetKeys,
};

verus! {

/// `a` where it is set, else `b`.
pub open spec fn first_of<T>(a: Option<T>, b: Option<T>) -> Option<T> {
    if a is Some {
        a
    } else {
        b
    }
}

/// The defaults after a `/set` of `d`: each property that `d` holds overwrites.
pub open spec fn apply_set(scope: DefaultsView, d: DefaultsView) -> DefaultsView {
    DefaultsView {
        uid: first_of(d.uid, scope.uid),
        gid: first_of(d.gid, scope.gid),
        mode: first_of(d.mode, scope.mode),
        ty: first_of(d.ty, scope.ty),
    }
}

/// The defaults after an `/unset` of the keys `u`.
pub open spec fn apply_unset(scope: DefaultsView, u: UnsetKeys) -> DefaultsView {
    DefaultsView {
        uid: if u.uid { None } else { scope.uid },
        gid: if u.gid { None } else { scope.gid },
        mode: if u.mode { None } else { scope.mode },
        ty: if u.ty { None } else { scope.ty },
    }
}

/// A path line resolved against the defaults: its own mode and type win, the
/// defaults fill in the ones it lacks; uid and gid are not carried over.
pub open spec fn resolve(scope: DefaultsView, e: EntryView) -> EntryView {
    EntryView {
        path: e.path,
        fields: FieldsView {
            mode: first_of(e.fields.mode, scope.mode),
            ty: first_of(e.fields.ty, scope.ty),
            ..e.fields
        },
    }
}

/// The state of a parse: the ambient defaults, whether a directive has been
/// seen, the entries resolved so far and the problems found so far.
pub struct Resolver {
    pub scope: Defaults,
    pub seen: bool,
    pub entries: Vec<Entry>,
    pub diagnostics: Vec<Diagnostic>,
}

pub struct ResolverView {
    pub scope: DefaultsView,
    pub seen: bool,
    pub entries: Seq<EntryView>,
    pub diagnostics: Seq<Diagnostic>,
}

pub open spec fn entry_views(v: Seq<Entry>) -> Seq<EntryView> {
    v.map_values(|e: Entry| e@)
}

impl View for Resolver {
    type V = ResolverView;

    open spec fn view(&self) -> ResolverView {
        ResolverView {
            scope: self.scope@,
            seen: self.seen,
            entries: entry_views(self.entries@),
            diagnostics: self.diagnostics@,
        }
    }
}

pub open spec fn initial() -> ResolverView {
    ResolverView { scope: no_defaults(), seen: false, entries: seq![], diagnostics: seq![] }
}

/// The state after the statement `st` of the line `s[lo..hi]`. A header after
/// another directive is reported and otherwise ignored.
pub open spec fn step(r: ResolverView, st: StatementView, lo: int, hi: int) -> ResolverView {
    match st {
        StatementView::Header => if r.seen {
            ResolverView {
                diagnostics: r.diagnostics.push(
                    Diagnostic {
                        kind: ErrorKind::MisplacedHeader,
                        offset: lo as usize,
                        length: (hi - lo) as usize,
                    },
                ),
                ..r
            }
        } else {
            ResolverView { seen: true, ..r }
        },
        StatementView::SetDefaults(d) => ResolverView {
            scope: apply_set(r.scope, d),
            seen: true,
            ..r
        },
        StatementView::UnsetDefaults(u) => ResolverView {
            scope: apply_unset(r.scope, u),
            seen: true,
            ..r
        },
        StatementView::Path(e) => ResolverView {
            entries: r.entries.push(resolve(r.scope, e)),
            seen: true,
            ..r
        },
    }
}

fn copy_opt(o: &Option<Vec<u8>>) -> (r: Option<Vec<u8>>)
    ensures
        crate::model::opt_bytes(r) == crate::model::opt_bytes(*o),
{
    match o {
        Some(v) => Some(copy_bytes(v.as_slice(), 0, v.len())),
        None => None,
    }
}

impl Resolver {
    /// A resolver with empty defaults, no entries and no problems.
    pub fn new() -> (r: Resolver)
        ensures
            r@ == initial(),
    {
        let r = Resolver {
            scope: Defaults::new(),
            seen: false,
            entries: Vec::new(),
            diagnostics: Vec::new(),
        };
        proof {
            assert(r@.entries =~= seq![]);
        }
        r
    }

    /// Resolves a path line against the current defaults.
    pub fn resolve_entry(&self, e: Entry) -> (r: Entry)
        ensures
            r@ == resolve(self.scope@, e@),
    {
        let mode = match e.fields.mode {
            Some(m) => Some(m),
            None => copy_opt(&self.scope.mode),
        };
        let ty = match e.fields.ty {
            Some(t) => Some(t),
            None => self.scope.ty,
        };
        Entry {
            path: e.path,
            fields: Fields {
                mode,
                ty,
                size: e.fields.size,
                link: e.fields.link,
                digest: e.fields.digest,
                time: e.fields.time,
            },
        }
    }

    /// Applies the statement of the line `s[lo..hi]`.
    pub fn apply(&mut self, st: Statement, lo: usize, hi: usize)
        requires
            lo <= hi,
        ensures
            final(self)@ == step(old(self)@, st@, lo as int, hi as int),
    {
        match st {
            Statement::Header => {
                if self.seen {
                    self.diagnostics.push(
                        Diagnostic { kind: ErrorKind::MisplacedHeader, offset: lo, length: hi - lo },
                    );
                } else {
                    self.seen = true;
                }
            },
            Statement::SetDefaults(d) => {
                if d.uid.is_some() {
                    self.scope.uid = d.uid;
                }
                if d.gid.is_some() {
                    self.scope.gid = d.gid;
                }
                if d.mode.is_some() {
                    self.scope.mode = d.mode;
                }
                if d.ty.is_some() {
                    self.scope.ty = d.ty;
                }
                self.seen = true;
            },
            Statement::UnsetDefaults(u) => {
                if u.uid {
                    self.scope.uid = None;
                }
                if u.gid {
                    self.scope.gid = None;
                }
                if u.mode {
                    self.scope.mode = None;
                }
                if u.ty {
                    self.scope.ty = None;
                }
                self.seen = true;
            },
            Statement::Path(e) => {
                let r = self.resolve_entry(e);
                self.entries.push(r);
                self.seen = true;
                proof {
                    assert(entry_views(self.entries@) =~= entry_views(old(self).entries@).push(
                        resolve(old(self).scope@, st@->Path_0),
                    ));
                }
            },
        }
    }
}

} // verus!
