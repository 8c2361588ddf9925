//! The fixed benchmark suite: which libraries run on which trace formats,
//! the four workload operations, the checks each operation makes on what a
//! library returned, and the order in which input files are visited.
use crate::trial::outcome_text;
use vstd::prelude::*;

verus! {

/// A trace format.
#[derive(Clone, Copy, Debug, PartialEq, Eq, Structural)]
pub enum Format {
    Vcd,
    Fst,
}

/// The format a file extension denotes, if any.
pub open spec fn format_of_extension(e: Seq<char>) -> Option<Format> {
    if e == seq!['v', 'c', 'd'] {
        Some(Format::Vcd)
    } else if e == seq!['f', 's', 't'] {
        Some(Format::Fst)
    } else {
        None
    }
}

impl Format {
    /// The format's name in the output.
    pub fn name(&self) -> (r: &'static str)
        ensures
            *self == Format::Vcd ==> r@ == "vcd"@,
            *self == Format::Fst ==> r@ == "fst"@,
    {
        match self {
            Format::Vcd => "vcd",
            Format::Fst => "fst",
        }
    }

    /// The format of files with extension `ext`: `vcd` or `fst`, and
    /// nothing for any other extension.
    pub fn from_extension(ext: &str) -> (r: Option<Format>)
        ensures
            r == format_of_extension(ext@),
    {
        let n = ext.unicode_len();
        if n != 3 {
            return None;
        }
        let (a, b, c) = (ext.get_char(0), ext.get_char(1), ext.get_char(2));
        let ghost e = ext@;
        if a == 'v' && b == 'c' && c == 'd' {
            assert(e =~= seq!['v', 'c', 'd']);
            Some(Format::Vcd)
        } else if a == 'f' && b == 's' && c == 't' {
            assert(e =~= seq!['f', 's', 't']);
            Some(Format::Fst)
        } else {
            proof {
                if e == seq!['v', 'c', 'd'] {
                    assert(e[0] == 'v' && e[1] == 'c' && e[2] == 'd');
                }
                if e == seq!['f', 's', 't'] {
                    assert(e[0] == 'f' && e[1] == 's' && e[2] == 't');
                }
            }
            None
        }
    }
}

/// A waveform-parsing library under test.
#[derive(Clone, Copy, Debug, PartialEq, Eq, Structural)]
pub enum Library {
    Wellen,
    RustVcd,
    VcdNg,
    FstReader,
    Fstapi,
}

/// The libraries run on files of format `f`, in the order they run.
pub open spec fn libraries_of(f: Format) -> Seq<Library> {
    match f {
        Format::Vcd => seq![Library::Wellen, Library::RustVcd, Library::VcdNg],
        Format::Fst => seq![Library::Wellen, Library::FstReader, Library::Fstapi],
    }
}

impl Library {
    /// The library's name in the output.
    pub fn name(&self) -> (r: &'static str)
        ensures
            *self == Library::Wellen ==> r@ == "wellen"@,
            *self == Library::RustVcd ==> r@ == "rust-vcd"@,
            *self == Library::VcdNg ==> r@ == "vcd-ng"@,
            *self == Library::FstReader ==> r@ == "fst-reader"@,
            *self == Library::Fstapi ==> r@ == "fstapi"@,
    {
        match self {
            Library::Wellen => "wellen",
            Library::RustVcd => "rust-vcd",
            Library::VcdNg => "vcd-ng",
            Library::FstReader => "fst-reader",
            Library::Fstapi => "fstapi",
        }
    }

    /// Whether the library is run on files of format `f`.
    pub fn supports(&self, f: Format) -> (r: bool)
        ensures
            r == libraries_of(f).contains(*self),
    {
        let r = match (self, f) {
            (Library::Wellen, _) => true,
            (Library::RustVcd, Format::Vcd) | (Library::VcdNg, Format::Vcd) => true,
            (Library::FstReader, Format::Fst) | (Library::Fstapi, Format::Fst) => true,
            _ => false,
        };
        proof {
            let s = libraries_of(f);
            if r {
                if *self == Library::Wellen {
                    assert(s[0] == *self);
                } else if *self == Library::RustVcd || *self == Library::FstReader {
                    assert(s[1] == *self);
                } else {
                    assert(s[2] == *self);
                }
            } else {
                assert forall|i: int| 0 <= i < s.len() implies s[i] != *self by {}
            }
        }
        r
    }
}

/// The libraries run on files of format `f`, in the order they run.
pub fn libraries_for(f: Format) -> (r: Vec<Library>)
    ensures
        r@ == libraries_of(f),
{
    let r = match f {
        Format::Vcd => vec![Library::Wellen, Library::RustVcd, Library::VcdNg],
        Format::Fst => vec![Library::Wellen, Library::FstReader, Library::Fstapi],
    };
    assert(r@ =~= libraries_of(f));
    r
}

/// One of the four workload shapes.
#[derive(Clone, Copy, Debug, PartialEq, Eq, Structural)]
pub enum Operation {
    FullParse,
    SignalList,
    ValueQuery,
    Pipeline,
}

/// The operations, in the order they run.
pub open spec fn operation_order() -> Seq<Operation> {
    seq![Operation::FullParse, Operation::SignalList, Operation::ValueQuery, Operation::Pipeline]
}

impl Operation {
    /// The operation's name in the output.
    pub fn name(&self) -> (r: &'static str)
        ensures
            *self == Operation::FullParse ==> r@ == "full_parse"@,
            *self == Operation::SignalList ==> r@ == "signal_list"@,
            *self == Operation::ValueQuery ==> r@ == "value_query"@,
            *self == Operation::Pipeline ==> r@ == "pipeline"@,
    {
        match self {
            Operation::FullParse => "full_parse",
            Operation::SignalList => "signal_list",
            Operation::ValueQuery => "value_query",
            Operation::Pipeline => "pipeline",
        }
    }
}

/// The operations, in the order they run.
pub fn operations() -> (r: Vec<Operation>)
    ensures
        r@ == operation_order(),
{
    let r = vec![
        Operation::FullParse,
        Operation::SignalList,
        Operation::ValueQuery,
        Operation::Pipeline,
    ];
    assert(r@ =~= operation_order());
    r
}

/// How many signals a value query reads at most.
pub const QUERY_LIMIT: usize = 10;

/// A listing of signals fails when it found no variable.
pub fn require_variables(count: u64) -> (r: Result<(), String>)
    ensures
        count == 0 ==> outcome_text(r) == Err::<(), Seq<char>>("no variables found"@),
        count > 0 ==> r is Ok,
{
    if count == 0 {
        Err(String::from_str("no variables found"))
    } else {
        Ok(())
    }
}

/// A value query fails when there is no signal to query.
pub fn require_signals(count: usize) -> (r: Result<(), String>)
    ensures
        count == 0 ==> outcome_text(r) == Err::<(), Seq<char>>("no signals to query"@),
        count > 0 ==> r is Ok,
{
    if count == 0 {
        Err(String::from_str("no signals to query"))
    } else {
        Ok(())
    }
}

/// The signals a value query reads: the first `QUERY_LIMIT` of those
/// listed, in order, or all of them when there are fewer.
pub fn select_for_query<T>(signals: Vec<T>) -> (r: Vec<T>)
    ensures
        signals@.len() <= QUERY_LIMIT ==> r@ == signals@,
        signals@.len() > QUERY_LIMIT ==> r@ == signals@.take(QUERY_LIMIT as int),
{
    let mut r = signals;
    r.truncate(QUERY_LIMIT);
    r
}

/// Whether `id` is among the signals a query selected.
pub fn is_selected(selected: &[u64], id: u64) -> (r: bool)
    ensures
        r == selected@.contains(id),
{
    let mut i: usize = 0;
    while i < selected.len()
        invariant
            0 <= i <= selected@.len(),
            forall|j: int| 0 <= j < i ==> selected@[j] != id,
        decreases selected@.len() - i,
    {
        if selected[i] == id {
            assert(selected@[i as int] == id);
            return true;
        }
        i = i + 1;
    }
    false
}

} // verus!
