//! Pull reader: decodes a binary document one event per call.
use vstd::prelude::*;
use vstd::utf8::{decode_utf8, valid_utf8};
use crate::error::kind_fault;
use crate::property::{Property, PropertyValue, Fault, Decoded, parse_properties, decode_properties, copy_range, utf8_string, decoded_as};
use crate::stream::{EventKind, StreamState, run, count, lemma_bracketing, lemma_depth_counts, lemma_nesting_never_negative};
use crate::wire::{le32, field_at, field_width, read_field, read_u32, read_u8};

pub use crate::error::{Error, ErrorKind};

verus! {

/// The format of a document.
#[derive(Debug, Clone, Copy, PartialEq, Eq, Structural)]
pub enum FbxFormatType {
    /// The binary format, with its version number.
    Binary(u32),
    /// The textual format.
    Text,
}

/// A structural event of a document.
#[derive(Debug, Clone, PartialEq)]
pub enum FbxEvent {
    StartFbx(FbxFormatType),
    EndFbx,
    StartNode { name: String, properties: Vec<Property> },
    EndNode,
    Comment(String),
}

pub open spec fn kind_of(e: FbxEvent) -> EventKind {
    match e {
        FbxEvent::StartFbx(_) => EventKind::StartFbx,
        FbxEvent::EndFbx => EventKind::EndFbx,
        FbxEvent::StartNode { .. } => EventKind::StartNode,
        FbxEvent::EndNode => EventKind::EndNode,
        FbxEvent::Comment(_) => EventKind::Comment,
    }
}

/// A body event as mathematical values.
pub enum BodyEvent {
    StartNode(Seq<char>, Seq<PropertyValue>),
    EndNode,
    EndFbx,
}

pub open spec fn body_event_of(e: FbxEvent) -> Option<BodyEvent> {
    match e {
        FbxEvent::StartNode { name, properties } => Some(
            BodyEvent::StartNode(name@, properties@.map_values(|p: Property| p@)),
        ),
        FbxEvent::EndNode => Some(BodyEvent::EndNode),
        FbxEvent::EndFbx => Some(BodyEvent::EndFbx),
        _ => None,
    }
}

/// The magic preamble: "Kaydara FBX Binary  ", a zero byte, then 0x1a, 0x00.
pub open spec fn magic() -> Seq<u8> {
    seq![75u8, 97, 121, 100, 97, 114, 97, 32, 70, 66, 88, 32, 66, 105, 110, 97, 114, 121, 32, 32, 0, 26, 0]
}

pub const MAGIC_LEN: usize = 23;

pub const HEADER_LEN: usize = 27;

/// Versions from this one on have 64-bit record fields.
pub const WIDE_VERSION: u32 = 7500;

/// The version that the document header declares, or why there is none.
pub open spec fn parse_header(s: Seq<u8>) -> Result<u32, (Fault, int)> {
    if s.len() >= 23 && s.subrange(0, 23) == magic() {
        if s.len() < 27 { Err((Fault::Eof, 23)) } else { Ok(le32(s.subrange(23, 27))) }
    } else if s.len() < 23 && s == magic().subrange(0, s.len() as int) {
        Err((Fault::Eof, 0))
    } else {
        Err((Fault::Magic, 0))
    }
}

/// The four leading fields of a node record.
pub struct RecordHeader {
    pub end: u64,
    pub nprops: u64,
    pub plen: u64,
    pub name_len: u8,
}

/// Decodes the leading fields of the node record at `pos`.
pub open spec fn parse_record_header(s: Seq<u8>, pos: int, wide: bool) -> Decoded<RecordHeader> {
    let w = field_width(wide);
    match (field_at(s, pos, wide), field_at(s, pos + w, wide), field_at(s, pos + 2 * w, wide)) {
        (None, _, _) => Err((Fault::Eof, pos)),
        (_, None, _) => Err((Fault::Eof, pos + w)),
        (_, _, None) => Err((Fault::Eof, pos + 2 * w)),
        (Some(end), Some(nprops), Some(plen)) => if pos + 3 * w + 1 > s.len() {
            Err((Fault::Eof, pos + 3 * w))
        } else {
            Ok((RecordHeader { end, nprops, plen, name_len: s[pos + 3 * w] }, pos + 3 * w + 1))
        },
    }
}

pub open spec fn is_null(h: RecordHeader) -> bool {
    h.end == 0 && h.nprops == 0 && h.plen == 0 && h.name_len == 0
}

/// Outcome of one step in the body of a document: the event, the position
/// after it and the stack of open nodes' end offsets; or the fault and its
/// position.
pub enum Step {
    Event(BodyEvent, int, Seq<u64>),
    Fail(Fault, int),
}

/// One step of decoding the body at `pos`, with the end offsets of the open
/// nodes in `stack` (innermost last).
pub open spec fn body_step(s: Seq<u8>, wide: bool, pos: int, stack: Seq<u64>) -> Step {
    if stack.len() > 0 && pos == stack.last() {
        Step::Event(BodyEvent::EndNode, pos, stack.drop_last())
    } else if stack.len() == 0 && pos == s.len() {
        Step::Event(BodyEvent::EndFbx, pos, stack)
    } else {
        match parse_record_header(s, pos, wide) {
            Err((f, at)) => Step::Fail(f, at),
            Ok((h, q)) => if is_null(h) {
                if stack.len() == 0 {
                    Step::Event(BodyEvent::EndFbx, q, stack)
                } else if q == stack.last() {
                    Step::Event(BodyEvent::EndNode, q, stack.drop_last())
                } else {
                    Step::Fail(Fault::Data, pos)
                }
            } else if q + h.name_len > s.len() {
                Step::Fail(Fault::Eof, q)
            } else if !valid_utf8(s.subrange(q, q + h.name_len)) {
                Step::Fail(Fault::Utf8, q)
            } else {
                let pp = q + h.name_len;
                if !(pp + h.plen <= h.end && (stack.len() > 0 ==> h.end <= stack.last())) {
                    Step::Fail(Fault::Data, pp)
                } else {
                    match parse_properties(s, pp, h.nprops as nat) {
                        Err((f, at)) => Step::Fail(f, at),
                        Ok((props, e)) => if e != pp + h.plen {
                            Step::Fail(Fault::Data, pp)
                        } else {
                            Step::Event(
                                BodyEvent::StartNode(decode_utf8(s.subrange(q, pp)), props),
                                e,
                                stack.push(h.end),
                            )
                        },
                    }
                }
            },
        }
    }
}

/// A pull parser over the bytes of a document.
pub struct EventReader {
    data: Vec<u8>,
    pos: usize,
    started: bool,
    finished: bool,
    failed: bool,
    wide: bool,
    stack: Vec<u64>,
    history: Ghost<Seq<EventKind>>,
}

impl EventReader {
    pub closed spec fn data(&self) -> Seq<u8> {
        self.data@
    }

    pub closed spec fn pos(&self) -> int {
        self.pos as int
    }

    pub closed spec fn stack(&self) -> Seq<u64> {
        self.stack@
    }

    pub closed spec fn wide(&self) -> bool {
        self.wide
    }

    pub closed spec fn started(&self) -> bool {
        self.started
    }

    pub closed spec fn finished(&self) -> bool {
        self.finished
    }

    pub closed spec fn failed(&self) -> bool {
        self.failed
    }

    /// The kinds of the events returned so far, in order.
    pub closed spec fn history(&self) -> Seq<EventKind> {
        self.history@
    }

    /// The reader's invariant: the cursor stays within the data and the
    /// innermost open node, each node within its parent, and the events returned so far form
    /// an accepted stream whose depth is the number of open nodes.
    pub closed spec fn wf(&self) -> bool {
        &&& self.pos <= self.data@.len()
        &&& forall|i: int, j: int| 0 <= i < j < self.stack@.len() ==> self.stack@[j] <= self.stack@[i]
        &&& self.stack@.len() > 0 ==> self.pos <= self.stack@.last()
        &&& run(self.history@) == Some(
            StreamState { started: self.started, finished: self.finished, depth: self.stack@.len() },
        )
    }

    /// A reader at the start of `source`.
    pub fn new(source: Vec<u8>) -> (r: EventReader)
        ensures
            r.wf(),
            r.data() == source@,
            r.pos() == 0,
            !r.started() && !r.finished() && !r.failed(),
            r.history().len() == 0,
    {
        let r = EventReader {
            data: source,
            pos: 0,
            started: false,
            finished: false,
            failed: false,
            wide: false,
            stack: Vec::new(),
            history: Ghost(Seq::empty()),
        };
        assert(run(r.history@) == Some(StreamState { started: false, finished: false, depth: 0 }));
        r
    }
}

/// Checks the magic preamble and reads the version that follows it.
pub fn decode_header(data: &Vec<u8>) -> (r: Result<u32, Error>)
    ensures
        match parse_header(data@) {
            Ok(v) => r == Ok::<u32, Error>(v),
            Err((f, at)) => r matches Err(e) && e.pos == at && kind_fault(e.kind) == f,
        },
{
    let m: Vec<u8> = vec![75u8, 97, 121, 100, 97, 114, 97, 32, 70, 66, 88, 32, 66, 105, 110, 97, 114, 121, 32, 32, 0, 26, 0];
    assert(m@ =~= magic());
    let n = if data.len() < MAGIC_LEN { data.len() } else { MAGIC_LEN };
    let mut i: usize = 0;
    while i < n
        invariant
            n <= data@.len(),
            n <= 23,
            n == data@.len() || n == 23,
            m@ == magic(),
            i <= n,
            data@.subrange(0, i as int) =~= magic().subrange(0, i as int),
        decreases n - i,
    {
        if data[i] != m[i] {
            proof {
                if data@.len() >= 23 {
                    assert(data@.subrange(0, 23)[i as int] != magic()[i as int]);
                } else {
                    assert(data@[i as int] != magic().subrange(0, data@.len() as int)[i as int]);
                }
            }
            return Err(Error::from_fault(0, Fault::Magic));
        }
        i = i + 1;
    }
    if data.len() < MAGIC_LEN {
        assert(data@ =~= data@.subrange(0, data@.len() as int));
        return Err(Error::from_fault(0, Fault::Eof));
    }
    assert(data@.subrange(0, 23) =~= magic());
    match read_u32(data, MAGIC_LEN) {
        Some(v) => Ok(v),
        None => Err(Error::from_fault(MAGIC_LEN, Fault::Eof)),
    }
}

/// Decodes the leading fields of the node record at `pos`.
fn decode_record_header(data: &Vec<u8>, pos: usize, wide: bool) -> (r: Result<(RecordHeader, usize), Error>)
    requires
        pos <= data@.len(),
    ensures
        match parse_record_header(data@, pos as int, wide) {
            Ok((h, q)) => r matches Ok((h2, q2)) && h2 == h && q2 == q,
            Err((f, at)) => r matches Err(e) && e.pos == at && kind_fault(e.kind) == f,
        },
{
    let w: usize = if wide { 8 } else { 4 };
    assert(w == field_width(wide));
    if data.len() - pos < w {
        return Err(Error::from_fault(pos, Fault::Eof));
    }
    let end = read_field(data, pos, wide).unwrap();
    if data.len() - pos - w < w {
        return Err(Error::from_fault(pos + w, Fault::Eof));
    }
    let nprops = match read_field(data, pos + w, wide) {
        Some(x) => x,
        None => return Err(Error::from_fault(pos + w, Fault::Eof)),
    };
    if data.len() - pos - 2 * w < w {
        return Err(Error::from_fault(pos + 2 * w, Fault::Eof));
    }
    let plen = match read_field(data, pos + 2 * w, wide) {
        Some(x) => x,
        None => return Err(Error::from_fault(pos + 2 * w, Fault::Eof)),
    };
    let name_len = match read_u8(data, pos + 3 * w) {
        Some(x) => x,
        None => return Err(Error::from_fault(pos + 3 * w, Fault::Eof)),
    };
    Ok((RecordHeader { end, nprops, plen, name_len }, pos + 3 * w + 1))
}

/// Whether `r` is the outcome of a body step that left the stack as `st`
/// given the previous stack `stack`; `end` is the end offset pushed by a
/// `StartNode`.
pub open spec fn body_outcome(r: Result<(FbxEvent, usize, u64), Error>, step: Step, stack: Seq<u64>) -> bool {
    match step {
        Step::Event(ev, p, st) => r matches Ok((e, np, end)) && body_event_of(e) == Some(ev) && np == p
            && st == (match ev {
                BodyEvent::StartNode(_, _) => stack.push(end),
                BodyEvent::EndNode => stack.drop_last(),
                BodyEvent::EndFbx => stack,
            }),
        Step::Fail(f, at) => r matches Err(e) && e.pos == at && kind_fault(e.kind) == f,
    }
}

/// Decodes one event of the body at `pos`, with the end offsets of the open
/// nodes in `stack`.
pub fn decode_body_event(data: &Vec<u8>, wide: bool, pos: usize, stack: &Vec<u64>) -> (r: Result<(FbxEvent, usize, u64), Error>)
    requires
        pos <= data@.len(),
        stack@.len() > 0 ==> pos <= stack@.last(),
    ensures
        body_outcome(r, body_step(data@, wide, pos as int, stack@), stack@),
        r matches Ok((_, np, _)) ==> np <= data@.len(),
{
    let depth = stack.len();
    if depth > 0 && pos as u64 == stack[depth - 1] {
        return Ok((FbxEvent::EndNode, pos, 0));
    }
    if depth == 0 && pos == data.len() {
        return Ok((FbxEvent::EndFbx, pos, 0));
    }
    let (h, q) = match decode_record_header(data, pos, wide) {
        Ok(x) => x,
        Err(e) => return Err(e),
    };
    let end = h.end;
    let nprops = h.nprops;
    let plen = h.plen;
    let name_len = h.name_len;
    if end == 0 && nprops == 0 && plen == 0 && name_len == 0 {
        if depth == 0 {
            return Ok((FbxEvent::EndFbx, q, 0));
        } else if q as u64 == stack[depth - 1] {
            return Ok((FbxEvent::EndNode, q, 0));
        } else {
            return Err(Error::from_fault(pos, Fault::Data));
        }
    }
    if data.len() - q < name_len as usize {
        return Err(Error::from_fault(q, Fault::Eof));
    }
    let pp = q + name_len as usize;
    let name_bytes = copy_range(data, q, pp);
    let name = match utf8_string(name_bytes) {
        Ok(st) => st,
        Err(k) => return Err(Error::utf8(q, k)),
    };
    if !(plen <= end && pp as u64 <= end - plen && (depth == 0 || end <= stack[depth - 1])) {
        return Err(Error::from_fault(pp, Fault::Data));
    }
    match decode_properties(data, pp, nprops) {
        Err(e) => Err(e),
        Ok((properties, e)) => {
            if e as u64 != pp as u64 + plen {
                Err(Error::from_fault(pp, Fault::Data))
            } else {
                Ok((FbxEvent::StartNode { name, properties }, e, end))
            }
        },
    }
}

/// What one call of `EventReader::next` does: `old` is the reader before
/// the call, `new` after it, and `r` the result.
pub open spec fn next_outcome(old: EventReader, new: EventReader, r: Result<FbxEvent, Error>) -> bool {
    &&& new.wf()
    &&& new.data() == old.data()
    &&& (old.finished() || old.failed() ==> r is Err && new == old)
    &&& (!old.finished() && !old.failed() && !old.started() ==> match parse_header(old.data()) {
        Ok(v) => r == Ok::<FbxEvent, Error>(FbxEvent::StartFbx(FbxFormatType::Binary(v))) && new.started()
            && !new.finished() && !new.failed() && new.pos() == HEADER_LEN && new.wide() == (v >= WIDE_VERSION)
            && new.stack().len() == 0,
        Err((f, at)) => r matches Err(e) && e.pos == at && kind_fault(e.kind) == f && new.failed(),
    })
    &&& (!old.finished() && !old.failed() && old.started() ==> match body_step(
        old.data(),
        old.wide(),
        old.pos(),
        old.stack(),
    ) {
        Step::Event(ev, p, st) => r matches Ok(e) && body_event_of(e) == Some(ev) && new.pos() == p && new.stack()
            == st && new.wide() == old.wide() && new.started() && new.finished() == (ev is EndFbx) && !new.failed(),
        Step::Fail(f, at) => r matches Err(e) && e.pos == at && kind_fault(e.kind) == f && new.failed(),
    })
    &&& (r matches Ok(e) ==> new.history() == old.history().push(kind_of(e)))
    &&& (r is Err ==> new.history() == old.history())
}

impl EventReader {
    /// Decodes the next event.
    ///
    /// The first call checks the header and yields `StartFbx`; later calls
    /// yield one body event each, up to `EndFbx`. After `EndFbx` or an error,
    /// every call fails and changes nothing.
    pub fn next(&mut self) -> (r: Result<FbxEvent, Error>)
        requires
            old(self).wf(),
        ensures
            next_outcome(*old(self), *final(self), r),
    {
        if self.finished || self.failed {
            return Err(Error::new(self.pos as u64, ErrorKind::DataError("the reader has already stopped".to_string())));
        }
        if !self.started {
            match decode_header(&self.data) {
                Ok(v) => {
                    assert(self.stack@.len() == 0);
                    self.started = true;
                    self.pos = HEADER_LEN;
                    self.wide = v >= WIDE_VERSION;
                    let ev = FbxEvent::StartFbx(FbxFormatType::Binary(v));
                    proof {
                        let h = self.history@.push(kind_of(ev));
                        assert(h.drop_last() =~= self.history@);
                        self.history = Ghost(h);
                    }
                    Ok(ev)
                },
                Err(e) => {
                    self.failed = true;
                    Err(e)
                },
            }
        } else {
            match decode_body_event(&self.data, self.wide, self.pos, &self.stack) {
                Err(e) => {
                    self.failed = true;
                    Err(e)
                },
                Ok((ev, np, end)) => {
                    let ghost old_stack = self.stack@;
                    match ev {
                        FbxEvent::StartNode { .. } => {
                            self.stack.push(end);
                        },
                        FbxEvent::EndNode => {
                            self.stack.pop();
                        },
                        _ => {
                            self.finished = true;
                        },
                    }
                    self.pos = np;
                    proof {
                        let h = self.history@.push(kind_of(ev));
                        assert(h.drop_last() =~= self.history@);
                        self.history = Ghost(h);
                        assert forall|i: int, j: int| 0 <= i < j < self.stack@.len() implies self.stack@[j] <= self.stack@[i] by {
                            if j < old_stack.len() {
                                assert(self.stack@[j] == old_stack[j]);
                                assert(self.stack@[i] == old_stack[i]);
                            } else {
                                assert(self.stack@[i] == old_stack[i]);
                                assert(old_stack[i] >= old_stack.last());
                            }
                        }
                        if self.stack@.len() > 0 && self.stack@.len() < old_stack.len() {
                            assert(self.stack@.last() == old_stack[old_stack.len() - 2]);
                        }
                    }
                    Ok(ev)
                },
            }
        }
    }

    /// An iterator over the events, which stops after the first error or
    /// after `EndFbx`.
    pub fn into_iter(self) -> (r: Events)
        requires
            self.wf(),
        ensures
            r.wf(),
            r.reader() == self,
            !r.finished(),
    {
        Events { reader: self, finished: false }
    }
}

/// An iterator over the events of a document.
pub struct Events {
    reader: EventReader,
    finished: bool,
}

impl Events {
    pub closed spec fn reader(&self) -> EventReader {
        self.reader
    }

    pub closed spec fn finished(&self) -> bool {
        self.finished
    }

    pub open spec fn wf(&self) -> bool {
        self.reader().wf()
    }

    /// The next event: `None` once an error or `EndFbx` has been returned.
    pub fn next(&mut self) -> (r: Option<Result<FbxEvent, Error>>)
        requires
            old(self).wf(),
        ensures
            final(self).wf(),
            old(self).finished() ==> r is None && *final(self) == *old(self),
            final(self).reader().wf(),
            !old(self).finished() ==> (r matches Some(x) && next_outcome(old(self).reader(), final(self).reader(), x)
                && final(self).finished() == (x is Err || x matches Ok(FbxEvent::EndFbx))),
    {
        if self.finished {
            None
        } else {
            let ev = self.reader.next();
            match ev {
                Ok(FbxEvent::EndFbx) | Err(_) => self.finished = true,
                _ => {},
            }
            Some(ev)
        }
    }
}

/// The events returned by a reader always form a well-shaped stream: `StartFbx`
/// first and only there, `EndFbx` at most once and last, as many `EndNode`
/// as `StartNode` events once `EndFbx` is in, and never more `EndNode` than
/// `StartNode` events in any prefix.
pub proof fn lemma_reader_stream_shape(x: &EventReader)
    requires
        x.wf(),
    ensures
        x.history().len() > 0 ==> x.history()[0] == EventKind::StartFbx,
        forall|i: int| 0 < i < x.history().len() ==> x.history()[i] != EventKind::StartFbx,
        forall|i: int| 0 <= i < x.history().len() - 1 ==> x.history()[i] != EventKind::EndFbx,
        (x.history().len() > 0 && x.history().last() == EventKind::EndFbx) ==> count(x.history(), EventKind::StartNode)
            == count(x.history(), EventKind::EndNode),
        forall|n: int| 0 <= n <= x.history().len() ==> count(#[trigger] x.history().subrange(0, n), EventKind::StartNode)
            >= count(x.history().subrange(0, n), EventKind::EndNode),
{
    lemma_bracketing(x.history());
    lemma_depth_counts(x.history());
    assert forall|n: int| 0 <= n <= x.history().len() implies count(#[trigger] x.history().subrange(0, n), EventKind::StartNode)
        >= count(x.history().subrange(0, n), EventKind::EndNode) by {
        lemma_nesting_never_negative(x.history(), n);
    }
}

} // verus!
