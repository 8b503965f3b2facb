//! The data the collector works on: what the attribute store handed back
//! for one file, the per-file result, and the error taxonomy.
//!
//! The attribute store itself (listing names, fetching one value) is I/O
//! and lives with the caller; the caller passes its outcomes in as plain
//! values of these types.

use vstd::prelude::*;
use vstd::string::StringExecFns;

verus! {

/// The outcome of fetching one attribute's raw value.
#[derive(Debug)]
pub enum FetchOutcome {
    /// The raw bytes of the value at the time of the read.
    Value(Vec<u8>),
    /// The name was listed but reports no value (race or store inconsistency).
    Missing,
    /// The store failed; the payload is the OS error text.
    Failed(String),
}

/// A listed attribute name together with the outcome of fetching its value.
#[derive(Debug)]
pub struct AttrEntry {
    pub name: String,
    pub fetched: FetchOutcome,
}

/// The outcome of listing a file's attribute names: the entries in listing
/// order, or the OS error text when the store could not be queried.
#[derive(Debug)]
pub enum ListOutcome {
    Names(Vec<AttrEntry>),
    Failed(String),
}

/// One encoded attribute: a name and the textual rendering of its value.
#[derive(Debug)]
pub struct AttrPair {
    pub name: String,
    pub value: String,
}

/// The success result for one file: its identifier and the encoded
/// attribute mapping (keys unique, in first-listed order).
#[derive(Debug)]
pub struct FileAttrs {
    pub file_name: String,
    pub attrs: Vec<AttrPair>,
}

/// Why a file's collection, or the whole run, failed.
#[derive(Debug)]
pub enum ErrorKind {
    /// The file's attribute names could not be enumerated.
    ListNames { file: String, cause: String },
    /// A listed attribute's value could not be read.
    GetValue { file: String, name: String, cause: String },
    /// A listed attribute reports no value.
    NoValue { file: String, name: String },
    /// A per-file result could not be serialized. The verified emitter
    /// never produces this, but the failure mode stays representable.
    Serialization { file: String, cause: String },
}

/// The aggregate outcome of a run: every file succeeded and the array was
/// closed, or the first structural failure encountered.
#[derive(Debug)]
pub enum RunOutcome {
    Success,
    Failed(ErrorKind),
}

/// Mathematical image of [`FetchOutcome`].
pub enum FetchView {
    Value(Seq<u8>),
    Missing,
    Failed(Seq<char>),
}

/// Mathematical image of [`AttrEntry`].
pub struct EntryView {
    pub name: Seq<char>,
    pub fetched: FetchView,
}

/// Mathematical image of [`ListOutcome`].
pub enum ListView {
    Names(Seq<EntryView>),
    Failed(Seq<char>),
}

/// Mathematical image of [`ErrorKind`].
pub enum ErrorView {
    ListNames { file: Seq<char>, cause: Seq<char> },
    GetValue { file: Seq<char>, name: Seq<char>, cause: Seq<char> },
    NoValue { file: Seq<char>, name: Seq<char> },
    Serialization { file: Seq<char>, cause: Seq<char> },
}

impl View for FetchOutcome {
    type V = FetchView;

    open spec fn view(&self) -> FetchView {
        match self {
            FetchOutcome::Value(v) => FetchView::Value(v@),
            FetchOutcome::Missing => FetchView::Missing,
            FetchOutcome::Failed(c) => FetchView::Failed(c@),
        }
    }
}

impl View for AttrEntry {
    type V = EntryView;

    open spec fn view(&self) -> EntryView {
        EntryView { name: self.name@, fetched: self.fetched@ }
    }
}

impl View for ListOutcome {
    type V = ListView;

    open spec fn view(&self) -> ListView {
        match self {
            ListOutcome::Names(entries) => ListView::Names(
                entries@.map_values(|e: AttrEntry| e@),
            ),
            ListOutcome::Failed(c) => ListView::Failed(c@),
        }
    }
}

impl View for ErrorKind {
    type V = ErrorView;

    open spec fn view(&self) -> ErrorView {
        match self {
            ErrorKind::ListNames { file, cause } => ErrorView::ListNames {
                file: file@,
                cause: cause@,
            },
            ErrorKind::GetValue { file, name, cause } => ErrorView::GetValue {
                file: file@,
                name: name@,
                cause: cause@,
            },
            ErrorKind::NoValue { file, name } => ErrorView::NoValue { file: file@, name: name@ },
            ErrorKind::Serialization { file, cause } => ErrorView::Serialization {
                file: file@,
                cause: cause@,
            },
        }
    }
}

/// The human-readable description of an error: the offending file, the
/// attribute where one applies, and the underlying OS cause.
pub open spec fn spec_message(e: ErrorView) -> Seq<char> {
    match e {
        ErrorView::ListNames { file, cause } => "Failed to get extended attributes for file "@
            + file + ": "@ + cause,
        ErrorView::GetValue { file, name, cause } => "Failed to get extended attribute "@ + name
            + " value for file "@ + file + ": "@ + cause,
        ErrorView::NoValue { file, name } => "Extended attribute "@ + name
            + " does not have a value for file "@ + file,
        ErrorView::Serialization { file, cause } => "Failed to serialize attributes to JSON for file "@
            + file + ". Error: "@ + cause,
    }
}

impl ErrorKind {
    /// The human-readable description of this error.
    pub fn message(&self) -> (r: String)
        ensures
            r@ == spec_message(self@),
    {
        match self {
            ErrorKind::ListNames { file, cause } => {
                let mut out = String::new();
                out.append("Failed to get extended attributes for file ");
                out.append(file.as_str());
                out.append(": ");
                out.append(cause.as_str());
                proof {
                    assert(out@ =~= spec_message(self@));
                }
                out
            },
            ErrorKind::GetValue { file, name, cause } => {
                let mut out = String::new();
                out.append("Failed to get extended attribute ");
                out.append(name.as_str());
                out.append(" value for file ");
                out.append(file.as_str());
                out.append(": ");
                out.append(cause.as_str());
                proof {
                    assert(out@ =~= spec_message(self@));
                }
                out
            },
            ErrorKind::NoValue { file, name } => {
                let mut out = String::new();
                out.append("Extended attribute ");
                out.append(name.as_str());
                out.append(" does not have a value for file ");
                out.append(file.as_str());
                proof {
                    assert(out@ =~= spec_message(self@));
                }
                out
            },
            ErrorKind::Serialization { file, cause } => {
                let mut out = String::new();
                out.append("Failed to serialize attributes to JSON for file ");
                out.append(file.as_str());
                out.append(". Error: ");
                out.append(cause.as_str());
                proof {
                    assert(out@ =~= spec_message(self@));
                }
                out
            },
        }
    }
}

/// The name/value pairs a vector of encoded attributes stands for.
pub open spec fn pairs_view(attrs: Seq<AttrPair>) -> Seq<(Seq<char>, Seq<char>)> {
    attrs.map_values(|p: AttrPair| (p.name@, p.value@))
}

/// No attribute name occurs twice.
pub open spec fn distinct_keys(pairs: Seq<(Seq<char>, Seq<char>)>) -> bool {
    forall|i: int, j: int| 0 <= i < j < pairs.len() ==> pairs[i].0 != pairs[j].0
}

} // verus!
