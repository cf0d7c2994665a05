pub mod event;
pub mod frame;
pub mod metrics;
mod order;

use vstd::prelude::*;

pub use crate::trace::event::Event;
pub use crate::trace::frame::{Chunk, Frame, Straightline};

use crate::codec::{gzip_compressed, gzip_decode, gzip_decompressed, gzip_encode};
use crate::text::{hex, push_hex};
use crate::trace::event::same_event;
use crate::trace::frame::{deep_wf, same_frame};
use crate::trace::metrics::{range_text, MetricsRange};

verus! {

/// A resolved symbol: its name and the address range `[offset, offset + size)`.
#[derive(Debug, PartialEq, Eq, Hash)]
pub struct SymbolInfo {
    pub name: String,
    pub offset: u64,
    pub size: u64,
}

/// How a symbol is shown: `[0x<start> - 0x<end>] <name>`, addresses in hexadecimal.
pub open spec fn symbol_text(sym: SymbolInfo) -> Seq<char> {
    "[0x"@ + hex(sym.offset as nat) + " - 0x"@ + hex((sym.offset + sym.size) as nat) + "] "@ + sym.name@
}

/// How an error is shown.
pub open spec fn error_text(e: Error) -> Seq<char> {
    match e {
        Error::InvalidRange(range) => "Invalid range: "@ + range_text(range.spec_start(), range.spec_end()),
        Error::NotSorted => "Occurences are not sorted by timestamp"@,
    }
}

impl Error {
    pub fn to_string(&self) -> (r: String)
        requires
            self matches Error::InvalidRange(range) ==> range.wf(),
        ensures
            r@ == error_text(*self),
    {
        match self {
            Error::InvalidRange(range) => {
                let mut s = String::from_str("Invalid range: ");
                let t = range.to_string();
                s.append(t.as_str());
                s
            },
            Error::NotSorted => String::from_str("Occurences are not sorted by timestamp"),
        }
    }
}

impl SymbolInfo {
    pub fn to_string(&self) -> (r: String)
        requires
            self.offset + self.size <= u64::MAX,
        ensures
            r@ == symbol_text(*self),
    {
        let mut s = String::from_str("[0x");
        push_hex(&mut s, self.offset);
        s.append(" - 0x");
        push_hex(&mut s, self.offset + self.size);
        s.append("] ");
        s.append(self.name.as_str());
        s
    }

    pub fn contains(&self, addr: u64) -> (r: bool)
        ensures
            r == (self.offset <= addr && addr < self.offset + self.size),
    {
        self.offset <= addr && addr - self.offset < self.size
    }
}

impl Clone for SymbolInfo {
    fn clone(&self) -> (r: Self)
        ensures
            r == *self,
    {
        SymbolInfo { name: self.name.clone(), offset: self.offset, size: self.size }
    }
}

/// Errors of frame and event construction.
#[derive(Debug, Clone, PartialEq, Eq, Hash)]
pub enum Error {
    InvalidRange(MetricsRange),
    NotSorted,
}

/// A recorded trace: the root call frame and the events seen while tracing.
#[derive(Debug)]
pub struct Trace {
    root: Frame,
    events: Vec<Event>,
}

impl Clone for Trace {
    fn clone(&self) -> (r: Self)
        ensures
            same_frame(self.spec_root(), r.spec_root()),
            r.spec_events().len() == self.spec_events().len(),
            forall|i: int|
                0 <= i < self.spec_events().len() ==> same_event(
                    self.spec_events()[i],
                    #[trigger] r.spec_events()[i],
                ),
    {
        let mut events: Vec<Event> = Vec::new();
        let n = self.events.len();
        let mut i: usize = 0;
        while i < n
            invariant
                n == self.events@.len(),
                i <= n,
                events@.len() == i,
                forall|j: int| 0 <= j < i ==> same_event(self.events@[j], #[trigger] events@[j]),
            decreases n - i,
        {
            let e = self.events[i].clone();
            events.push(e);
            i += 1;
        }
        Trace { root: self.root.clone(), events }
    }
}

impl Trace {
    pub closed spec fn spec_root(&self) -> Frame {
        self.root
    }

    pub closed spec fn spec_events(&self) -> Seq<Event> {
        self.events@
    }

    pub fn new(root: Frame, events: Vec<Event>) -> (r: Self)
        ensures
            r.spec_root() == root,
            r.spec_events() == events@,
            (deep_wf(root) && forall|i: int| 0 <= i < events@.len() ==> (#[trigger] events@[i]).wf())
                ==> r.wf(),
    {
        Self { root, events }
    }

    pub fn root_frame(&self) -> (r: &Frame)
        ensures
            *r == self.spec_root(),
    {
        &self.root
    }

    pub fn events(&self) -> (r: &[Event])
        ensures
            r@ == self.spec_events(),
    {
        self.events.as_slice()
    }

    /// Frames serialized trace bytes for storage: gzip-compressed when `gzip`
    /// is set, unchanged otherwise.
    pub fn compress_payload(serialized: Vec<u8>, gzip: bool) -> (r: Vec<u8>)
        ensures
            r@ == if gzip {
                gzip_compressed(serialized@)
            } else {
                serialized@
            },
            gzip ==> gzip_decompressed(r@) == Some(serialized@),
    {
        if gzip {
            gzip_encode(serialized.as_slice())
        } else {
            serialized
        }
    }

    /// Recovers the serialized trace bytes from stored data: gzip-decoded when
    /// `gzip` is set (`None` when the data is not a valid gzip stream),
    /// copied otherwise.
    pub fn decompress_payload(data: &[u8], gzip: bool) -> (r: Option<Vec<u8>>)
        ensures
            gzip ==> match r {
                Some(v) => gzip_decompressed(data@) == Some(v@),
                None => gzip_decompressed(data@) is None,
            },
            !gzip ==> (r matches Some(v) && v@ == data@),
    {
        if gzip {
            gzip_decode(data)
        } else {
            let mut v: Vec<u8> = Vec::new();
            let n = data.len();
            let mut i: usize = 0;
            while i < n
                invariant
                    n == data@.len(),
                    i <= n,
                    v@ == data@.subrange(0, i as int),
                decreases n - i,
            {
                v.push(data[i]);
                i += 1;
                assert(v@ =~= data@.subrange(0, i as int));
            }
            assert(v@ =~= data@);
            Some(v)
        }
    }

    /// The first event with the given id, if any.
    pub fn get_event(&self, id: u32) -> (r: Option<&Event>)
        ensures
            match r {
                Some(e) => find_event(self.spec_events(), id) == Some(*e),
                None => find_event(self.spec_events(), id) is None,
            },
    {
        let n = self.events.len();
        let mut i: usize = 0;
        assert(self.events@.skip(0) =~= self.events@);
        while i < n
            invariant
                n == self.events@.len(),
                i <= n,
                find_event(self.events@, id) == find_event(self.events@.skip(i as int), id),
            decreases n - i,
        {
            assert(self.events@.skip(i as int).drop_first() =~= self.events@.skip(i + 1));
            if self.events[i].id() == id {
                return Some(&self.events[i]);
            }
            i += 1;
        }
        None
    }
}

/// Kinds of trouble recorded as events of a trace.
#[derive(Debug, Clone, Copy, PartialEq, Eq, Hash, Structural)]
pub enum TraceError {
    /// The trace decoder hit an error; callstacks may be corrupted.
    DataCollectionError,
}

impl TraceError {
    pub open spec fn spec_id(self) -> u32 {
        match self {
            TraceError::DataCollectionError => 0,
        }
    }

    /// The event id under which this kind of trouble is recorded.
    pub fn id(self) -> (r: u32)
        ensures
            r == self.spec_id(),
    {
        match self {
            TraceError::DataCollectionError => 0,
        }
    }
}

impl Trace {
    /// Every frame of the call tree has a well-formed range and every event
    /// keeps its occurrences in timestamp order.
    pub open spec fn wf(&self) -> bool {
        &&& deep_wf(self.spec_root())
        &&& forall|i: int| 0 <= i < self.spec_events().len() ==> (#[trigger] self.spec_events()[i]).wf()
    }
}

/// The first event of `events` with the given id.
pub open spec fn find_event(events: Seq<Event>, id: u32) -> Option<Event>
    decreases events.len(),
{
    if events.len() == 0 {
        None
    } else if events[0].spec_id() == id {
        Some(events[0])
    } else {
        find_event(events.drop_first(), id)
    }
}

} // verus!
