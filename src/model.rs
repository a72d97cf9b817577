//! The values that parsing produces: diagnostics, directives and entries, with
//! their mathematical views.
use vstd::prelude::*;
use crate::value::PathType;

verus! {

/// The kinds of problem that parsing reports.
#[derive(Clone, Copy, Debug, PartialEq, Eq, Structural)]
pub enum ErrorKind {
    /// A blank line, or one whose first field starts no directive.
    UnrecognizedLine,
    /// A `#mtree` header after another directive.
    MisplacedHeader,
    /// A field whose key the directive does not know.
    UnknownKey,
    /// A number that is not decimal digits or does not fit in 64 bits.
    InvalidNumber,
    /// A mode that is not one to four octal digits.
    InvalidOctalMode,
    /// A digest that is not 64 characters long.
    InvalidDigestLength,
    /// A type other than `dir`, `file` or `link`.
    InvalidType,
    /// A last line without its terminating newline; parsing stops there.
    UnterminatedDirective,
}

impl ErrorKind {
    /// Whether a problem of this kind ends the parse.
    pub fn is_fatal(&self) -> (r: bool)
        ensures
            r == (*self == ErrorKind::UnterminatedDirective),
    {
        match self {
            ErrorKind::UnterminatedDirective => true,
            _ => false,
        }
    }

    /// A short human-readable description of the problem.
    pub fn message(&self) -> (r: &'static str)
        ensures
            r@ == match *self {
                ErrorKind::UnrecognizedLine => "unrecognized line"@,
                ErrorKind::MisplacedHeader => "the #mtree header must come first"@,
                ErrorKind::UnknownKey => "unknown key"@,
                ErrorKind::InvalidNumber => "invalid number"@,
                ErrorKind::InvalidOctalMode => "invalid octal mode"@,
                ErrorKind::InvalidDigestLength => "a sha256 digest has 64 hexadecimal digits"@,
                ErrorKind::InvalidType => "type must be dir, file or link"@,
                ErrorKind::UnterminatedDirective => "directive is not terminated by a newline"@,
            },
    {
        match self {
            ErrorKind::UnrecognizedLine => "unrecognized line",
            ErrorKind::MisplacedHeader => "the #mtree header must come first",
            ErrorKind::UnknownKey => "unknown key",
            ErrorKind::InvalidNumber => "invalid number",
            ErrorKind::InvalidOctalMode => "invalid octal mode",
            ErrorKind::InvalidDigestLength => "a sha256 digest has 64 hexadecimal digits",
            ErrorKind::InvalidType => "type must be dir, file or link",
            ErrorKind::UnterminatedDirective => "directive is not terminated by a newline",
        }
    }
}

/// A problem found in the input, at byte `offset`, spanning `length` bytes.
#[derive(Clone, Copy, Debug, PartialEq, Eq, Structural)]
pub struct Diagnostic {
    pub kind: ErrorKind,
    pub offset: usize,
    pub length: usize,
}

pub open spec fn opt_bytes(o: Option<Vec<u8>>) -> Option<Seq<u8>> {
    match o {
        Some(v) => Some(v@),
        None => None,
    }
}

/// The ambient default properties, as `/set` writes them.
#[derive(Debug)]
pub struct Defaults {
    pub uid: Option<u64>,
    pub gid: Option<u64>,
    pub mode: Option<Vec<u8>>,
    pub ty: Option<PathType>,
}

pub struct DefaultsView {
    pub uid: Option<u64>,
    pub gid: Option<u64>,
    pub mode: Option<Seq<u8>>,
    pub ty: Option<PathType>,
}

impl View for Defaults {
    type V = DefaultsView;

    open spec fn view(&self) -> DefaultsView {
        DefaultsView {
            uid: self.uid,
            gid: self.gid,
            mode: opt_bytes(self.mode),
            ty: self.ty,
        }
    }
}

pub open spec fn no_defaults() -> DefaultsView {
    DefaultsView { uid: None, gid: None, mode: None, ty: None }
}

impl Defaults {
    /// Defaults with no property set.
    pub fn new() -> (r: Defaults)
        ensures
            r@ == no_defaults(),
    {
        Defaults { uid: None, gid: None, mode: None, ty: None }
    }
}

/// The properties of a path line, each at most once.
#[derive(Debug, PartialEq, Eq)]
pub struct Fields {
    pub mode: Option<Vec<u8>>,
    pub ty: Option<PathType>,
    pub size: Option<u64>,
    pub link: Option<Vec<u8>>,
    pub digest: Option<Vec<u8>>,
    pub time: Option<u64>,
}

pub struct FieldsView {
    pub mode: Option<Seq<u8>>,
    pub ty: Option<PathType>,
    pub size: Option<u64>,
    pub link: Option<Seq<u8>>,
    pub digest: Option<Seq<u8>>,
    pub time: Option<u64>,
}

impl View for Fields {
    type V = FieldsView;

    open spec fn view(&self) -> FieldsView {
        FieldsView {
            mode: opt_bytes(self.mode),
            ty: self.ty,
            size: self.size,
            link: opt_bytes(self.link),
            digest: opt_bytes(self.digest),
            time: self.time,
        }
    }
}

pub open spec fn no_fields() -> FieldsView {
    FieldsView { mode: None, ty: None, size: None, link: None, digest: None, time: None }
}

impl Fields {
    /// Fields with no property set.
    pub fn new() -> (r: Fields)
        ensures
            r@ == no_fields(),
    {
        Fields { mode: None, ty: None, size: None, link: None, digest: None, time: None }
    }
}

/// A path and its properties: as written on a path line, or resolved against
/// the defaults.
#[derive(Debug, PartialEq, Eq)]
pub struct Entry {
    pub path: Vec<u8>,
    pub fields: Fields,
}

pub struct EntryView {
    pub path: Seq<u8>,
    pub fields: FieldsView,
}

impl View for Entry {
    type V = EntryView;

    open spec fn view(&self) -> EntryView {
        EntryView { path: self.path@, fields: self.fields@ }
    }
}

/// The default keys that an `/unset` directive clears.
#[derive(Clone, Copy, Debug, PartialEq, Eq, Structural)]
pub struct UnsetKeys {
    pub uid: bool,
    pub gid: bool,
    pub mode: bool,
    pub ty: bool,
}

/// One directive of the format.
#[derive(Debug)]
pub enum Statement {
    /// The `#mtree` header.
    Header,
    /// `/set` with the properties it sets.
    SetDefaults(Defaults),
    /// `/unset` with the keys it clears.
    UnsetDefaults(UnsetKeys),
    /// A path line with its own properties.
    Path(Entry),
}

pub enum StatementView {
    Header,
    SetDefaults(DefaultsView),
    UnsetDefaults(UnsetKeys),
    Path(EntryView),
}

impl View for Statement {
    type V = StatementView;

    open spec fn view(&self) -> StatementView {
        match self {
            Statement::Header => StatementView::Header,
            Statement::SetDefaults(d) => StatementView::SetDefaults(d@),
            Statement::UnsetDefaults(u) => StatementView::UnsetDefaults(*u),
            Statement::Path(e) => StatementView::Path(e@),
        }
    }
}

pub open spec fn opt_statement(o: Option<Statement>) -> Option<StatementView> {
    match o {
        Some(x) => Some(x@),
        None => None,
    }
}

} // verus!
