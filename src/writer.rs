//! Push writer: encodes events into the bytes of a binary document.
use vstd::prelude::*;
use vstd::utf8::encode_utf8;
use vstd::string::*;
use crate::text::{decimal, push_decimal};
use crate::property::{Property, PropertyValue, encodable, lemma_properties_round_trip, parse_properties, properties_bytes, encode_properties, is_encodable, push_slice};
use crate::reader::{FbxEvent, FbxFormatType, kind_of, magic, body_step, Step, BodyEvent, parse_record_header, RecordHeader};
use crate::property::Fault;
use crate::stream::{EventKind, StreamState, run, count, lemma_bracketing, lemma_depth_counts, lemma_nesting_never_negative};
use crate::wire::{bytes32, field_at, field_bytes, field_width, push_field, push_u32, lemma_field_round_trip};
use vstd::utf8::{encode_utf8_valid_utf8, encode_utf8_decode_utf8};

verus! {

/// An encoding error.
#[derive(Debug, Clone)]
pub enum Error {
    /// A length or an offset does not fit its field.
    DataTooLarge(String),
    /// `EndNode` was given but no node is open.
    ExtraEndNode,
    /// An event other than `StartFbx` was given before `StartFbx`.
    FbxNotStarted,
    /// `StartFbx` was given twice, or an event after `EndFbx`.
    FbxAlreadyStarted,
    /// Invalid writer option.
    InvalidOption(String),
    /// The version asked for cannot be written.
    UnsupportedFbxVersion(u32),
    /// The event cannot be written in the current format or state.
    UnwritableEvent,
    /// A feature that this writer does not encode.
    Unimplemented(String),
}

impl Error {
    /// The error as a line of text.
    pub fn message(&self) -> (r: String)
        ensures
            r@ == match self {
                Error::DataTooLarge(m) => "Data size is too large: "@ + m@,
                Error::ExtraEndNode => "Extra end-of-node marker detected"@,
                Error::FbxNotStarted => "An writer event is given, but FBX data is not started yet"@,
                Error::FbxAlreadyStarted => "Got a writer event to start FBX, but FBX data is already started"@,
                Error::InvalidOption(m) => "Invalid writer option: "@ + m@,
                Error::UnsupportedFbxVersion(v) => "Unsupported FBX version ("@ + decimal(*v as nat) + ")"@,
                Error::UnwritableEvent => "A given event is not writable in current format"@,
                Error::Unimplemented(m) => "Unimplemented feature: "@ + m@,
            },
    {
        let mut r = String::new();
        match self {
            Error::DataTooLarge(m) => {
                r.append("Data size is too large: ");
                r.append(m.as_str());
            },
            Error::InvalidOption(m) => {
                r.append("Invalid writer option: ");
                r.append(m.as_str());
            },
            Error::UnsupportedFbxVersion(v) => {
                r.append("Unsupported FBX version (");
                push_decimal(&mut r, *v as u64);
                r.append(")");
            },
            Error::Unimplemented(m) => {
                r.append("Unimplemented feature: ");
                r.append(m.as_str());
            },
            Error::ExtraEndNode => r.append("Extra end-of-node marker detected"),
            Error::FbxNotStarted => r.append("An writer event is given, but FBX data is not started yet"),
            Error::FbxAlreadyStarted => r.append("Got a writer event to start FBX, but FBX data is already started"),
            Error::UnwritableEvent => r.append("A given event is not writable in current format"),
        }
        assert(r@ =~= match self {
                Error::DataTooLarge(m) => "Data size is too large: "@ + m@,
                Error::ExtraEndNode => "Extra end-of-node marker detected"@,
                Error::FbxNotStarted => "An writer event is given, but FBX data is not started yet"@,
                Error::FbxAlreadyStarted => "Got a writer event to start FBX, but FBX data is already started"@,
                Error::InvalidOption(m) => "Invalid writer option: "@ + m@,
                Error::UnsupportedFbxVersion(v) => "Unsupported FBX version ("@ + decimal(*v as nat) + ")"@,
                Error::UnwritableEvent => "A given event is not writable in current format"@,
                Error::Unimplemented(m) => "Unimplemented feature: "@ + m@,
            });
        r
    }

    /// A short description of the kind of error.
    pub fn description(&self) -> (r: &'static str)
        ensures
            r@ == match self {
                Error::DataTooLarge(_) => "Data size is too large"@,
                Error::ExtraEndNode => "Extra end-of-node marker detected"@,
                Error::FbxNotStarted => "An writer event is given, but FBX data is not started yet"@,
                Error::FbxAlreadyStarted => "Got a writer event to start FBX, but FBX data is already started"@,
                Error::InvalidOption(_) => "Invalid writer option"@,
                Error::UnsupportedFbxVersion(_) => "Unsupported FBX version"@,
                Error::UnwritableEvent => "A given event is not writable in current format"@,
                Error::Unimplemented(_) => "Attempt to use unimplemented feature"@,
            },
    {
        match self {
            Error::DataTooLarge(_) => "Data size is too large",
            Error::ExtraEndNode => "Extra end-of-node marker detected",
            Error::FbxNotStarted => "An writer event is given, but FBX data is not started yet",
            Error::FbxAlreadyStarted => "Got a writer event to start FBX, but FBX data is already started",
            Error::InvalidOption(_) => "Invalid writer option",
            Error::UnsupportedFbxVersion(_) => "Unsupported FBX version",
            Error::UnwritableEvent => "A given event is not writable in current format",
            Error::Unimplemented(_) => "Attempt to use unimplemented feature",
        }
    }
}

/// What a rejected event is rejected for.
pub enum Refusal {
    TooLarge,
    ExtraEndNode,
    NotStarted,
    AlreadyStarted,
    UnsupportedVersion(u32),
    Unwritable,
    Unimplemented,
}

pub open spec fn refusal_of(e: Error) -> Refusal {
    match e {
        Error::DataTooLarge(_) => Refusal::TooLarge,
        Error::ExtraEndNode => Refusal::ExtraEndNode,
        Error::FbxNotStarted => Refusal::NotStarted,
        Error::FbxAlreadyStarted => Refusal::AlreadyStarted,
        Error::UnsupportedFbxVersion(v) => Refusal::UnsupportedVersion(v),
        Error::UnwritableEvent => Refusal::Unwritable,
        _ => Refusal::Unimplemented,
    }
}

pub const MIN_VERSION: u32 = 7100;

pub const MAX_VERSION: u32 = 7700;

pub open spec fn supported_version(v: u32) -> bool {
    MIN_VERSION <= v <= MAX_VERSION
}

/// The all-zero record that ends a list of child nodes.
pub open spec fn null_record(wide: bool) -> Seq<u8> {
    Seq::new((3 * field_width(wide) + 1) as nat, |i: int| 0u8)
}

pub open spec fn zeros(n: nat) -> Seq<u8> {
    Seq::new(n, |i: int| 0u8)
}

pub open spec fn footer_id() -> Seq<u8> {
    seq![0xfau8, 0xbc, 0xab, 0x09, 0xd0, 0xc8, 0xd4, 0x66, 0xb1, 0x76, 0xfb, 0x83, 0x1c, 0xf7, 0x26, 0x7e]
}

pub open spec fn footer_magic() -> Seq<u8> {
    seq![0xf8u8, 0x5a, 0x8c, 0x6a, 0xde, 0xf5, 0xd9, 0x7e, 0xec, 0xe9, 0x0c, 0xe3, 0x75, 0x8f, 0x29, 0x0b]
}

/// The block written after the last top-level node.
pub open spec fn footer(version: u32) -> Seq<u8> {
    footer_id() + zeros(4) + bytes32(version) + zeros(120) + footer_magic()
}

/// A node record up to its children: end offset, property count,
/// property-list length, name length, name, properties.
pub open spec fn record_head(end: u64, name: Seq<char>, props: Seq<PropertyValue>, wide: bool) -> Seq<u8> {
    let pb = properties_bytes(props);
    field_bytes(end, wide) + field_bytes(props.len() as u64, wide) + field_bytes(pb.len() as u64, wide)
        + seq![encode_utf8(name).len() as u8] + encode_utf8(name) + pb
}

/// A node record up to its children, with a zero placeholder for its end
/// offset.
pub open spec fn node_head(name: Seq<char>, props: Seq<Property>, wide: bool) -> Seq<u8> {
    record_head(0, name, props.map_values(|p: Property| p@), wide)
}

/// `s` with the bytes from `at` on replaced by `b`.
pub open spec fn patch(s: Seq<u8>, at: int, b: Seq<u8>) -> Seq<u8> {
    s.subrange(0, at) + b + s.subrange(at + b.len(), s.len() as int)
}

/// A writer that builds the bytes of a document in memory.
pub struct EventWriter {
    out: Vec<u8>,
    started: bool,
    closed: bool,
    wide: bool,
    version: u32,
    /// Offsets of the end-offset fields of the open nodes, innermost last.
    open: Vec<usize>,
    /// Whether each open node has had a child.
    has_child: Vec<bool>,
    history: Ghost<Seq<EventKind>>,
}

impl EventWriter {
    /// The bytes written so far.
    pub closed spec fn bytes(&self) -> Seq<u8> {
        self.out@
    }

    pub closed spec fn started(&self) -> bool {
        self.started
    }

    pub closed spec fn closed(&self) -> bool {
        self.closed
    }

    pub closed spec fn wide(&self) -> bool {
        self.wide
    }

    pub closed spec fn version(&self) -> u32 {
        self.version
    }

    pub closed spec fn open_offsets(&self) -> Seq<usize> {
        self.open@
    }

    pub closed spec fn has_child(&self) -> Seq<bool> {
        self.has_child@
    }

    /// The kinds of the events written so far, in order.
    pub closed spec fn history(&self) -> Seq<EventKind> {
        self.history@
    }

    pub closed spec fn depth(&self) -> nat {
        self.open@.len()
    }

    /// The writer's invariant: each open node's placeholder lies within the
    /// bytes written, and the events written so far form an accepted stream
    /// whose depth is the number of open nodes.
    pub closed spec fn wf(&self) -> bool {
        &&& self.has_child@.len() == self.open@.len()
        &&& forall|i: int| 0 <= i < self.open@.len() ==> self.open@[i] + field_width(self.wide) <= self.out@.len()
        &&& !self.wide && !self.closed ==> self.out@.len() <= u32::MAX
        &&& !self.started ==> self.out@.len() == 0
        &&& self.started ==> self.wide == (self.version >= 7500)
        &&& run(self.history@) == Some(
            StreamState { started: self.started, finished: self.closed, depth: self.open@.len() },
        )
    }

    /// Why `ev` cannot be written now, if it cannot.
    pub open spec fn refusal(&self, ev: FbxEvent) -> Option<Refusal> {
        match ev {
            FbxEvent::StartFbx(fmt) => if self.started() {
                Some(Refusal::AlreadyStarted)
            } else {
                match fmt {
                    FbxFormatType::Text => Some(Refusal::Unimplemented),
                    FbxFormatType::Binary(v) => if supported_version(v) {
                        None
                    } else {
                        Some(Refusal::UnsupportedVersion(v))
                    },
                }
            },
            _ => if !self.started() {
                Some(Refusal::NotStarted)
            } else if self.closed() {
                Some(Refusal::AlreadyStarted)
            } else {
                match ev {
                    FbxEvent::Comment(_) => Some(Refusal::Unwritable),
                    FbxEvent::EndNode => if self.depth() == 0 {
                        Some(Refusal::ExtraEndNode)
                    } else if !self.wide() && self.bytes().len() + (if self.has_child().last() {
                        null_record(false).len() as int
                    } else {
                        0int
                    }) > u32::MAX {
                        Some(Refusal::TooLarge)
                    } else {
                        None
                    },
                    FbxEvent::EndFbx => if self.depth() != 0 { Some(Refusal::Unwritable) } else { None },
                    FbxEvent::StartNode { name, properties } => if self.node_too_large(name@, properties@) {
                        Some(Refusal::TooLarge)
                    } else {
                        None
                    },
                    _ => None,
                }
            },
        }
    }

    /// Whether a node with this name and these properties does not fit the
    /// fields of the format.
    pub open spec fn node_too_large(&self, name: Seq<char>, props: Seq<Property>) -> bool {
        encode_utf8(name).len() > 255
        || (exists|i: int| 0 <= i < props.len() && !encodable(#[trigger] props[i]@))
        || (!self.wide() && (props.len() > u32::MAX
            || self.bytes().len() + node_head(name, props, false).len() > u32::MAX))
    }

    /// The bytes after `ev` has been written, where it can be.
    pub open spec fn written(&self, ev: FbxEvent) -> Seq<u8> {
        match ev {
            FbxEvent::StartFbx(FbxFormatType::Binary(v)) => self.bytes() + magic() + bytes32(v),
            FbxEvent::StartNode { name, properties } => self.bytes() + node_head(name@, properties@, self.wide()),
            FbxEvent::EndNode => {
                let s = self.bytes() + if self.has_child().last() { null_record(self.wide()) } else { Seq::empty() };
                patch(s, self.open_offsets().last() as int, field_bytes(s.len() as u64, self.wide()))
            },
            FbxEvent::EndFbx => self.bytes() + null_record(self.wide()) + footer(self.version()),
            _ => self.bytes(),
        }
    }

    /// A writer with nothing written.
    pub fn new() -> (r: EventWriter)
        ensures
            r.wf(),
            r.bytes().len() == 0,
            !r.started() && !r.closed(),
            r.history().len() == 0,
    {
        let r = EventWriter {
            out: Vec::new(),
            started: false,
            closed: false,
            wide: false,
            version: 0,
            open: Vec::new(),
            has_child: Vec::new(),
            history: Ghost(Seq::empty()),
        };
        assert(run(r.history@) == Some(StreamState { started: false, finished: false, depth: 0 }));
        r
    }

    /// The bytes written so far.
    pub fn get_ref(&self) -> (r: &Vec<u8>)
        ensures
            r@ == self.bytes(),
    {
        &self.out
    }

    /// Consumes the writer, returning the bytes written.
    pub fn into_inner(self) -> (r: Vec<u8>)
        ensures
            r@ == self.bytes(),
    {
        self.out
    }

    /// The writer's state after `ev` has been accepted: `old` before the
    /// call, `new` after it.
    pub open spec fn state_after(old: EventWriter, new: EventWriter, ev: FbxEvent) -> bool {
        &&& new.started()
        &&& new.closed() == (ev is EndFbx)
        &&& match ev {
            FbxEvent::StartFbx(FbxFormatType::Binary(v)) => new.version() == v && new.wide() == (v >= 7500)
                && new.depth() == 0,
            _ => new.version() == old.version() && new.wide() == old.wide(),
        }
        &&& match ev {
            FbxEvent::StartNode { .. } => new.depth() == old.depth() + 1 && new.open_offsets()
                == old.open_offsets().push(old.bytes().len() as usize) && new.has_child() == (if old.depth() > 0 {
                old.has_child().update(old.depth() - 1, true)
            } else {
                old.has_child()
            }).push(false),
            FbxEvent::EndNode => new.depth() == old.depth() - 1 && new.open_offsets()
                == old.open_offsets().drop_last() && new.has_child() == old.has_child().drop_last(),
            FbxEvent::StartFbx(_) => new.open_offsets().len() == 0 && new.has_child().len() == 0,
            _ => new.open_offsets() == old.open_offsets() && new.has_child() == old.has_child(),
        }
    }

    /// Writes one event.
    ///
    /// An event that cannot be written now is refused with an error and
    /// changes nothing.
    pub fn write(&mut self, ev: &FbxEvent) -> (r: Result<(), Error>)
        requires
            old(self).wf(),
        ensures
            final(self).wf(),
            match old(self).refusal(*ev) {
                Some(f) => r matches Err(e) && refusal_of(e) == f && *final(self) == *old(self),
                None => r is Ok && final(self).bytes() == old(self).written(*ev)
                    && final(self).history() == old(self).history().push(kind_of(*ev))
                    && Self::state_after(*old(self), *final(self), *ev),
            },
    {
        match ev {
            FbxEvent::StartFbx(fmt) => {
                if self.started {
                    return Err(Error::FbxAlreadyStarted);
                }
                match fmt {
                    FbxFormatType::Text => Err(Error::Unimplemented("text format".to_string())),
                    FbxFormatType::Binary(v) => {
                        if *v < MIN_VERSION || *v > MAX_VERSION {
                            return Err(Error::UnsupportedFbxVersion(*v));
                        }
                        self.start(*v);
                        Ok(())
                    },
                }
            },
            _ => {
                if !self.started {
                    return Err(Error::FbxNotStarted);
                }
                if self.closed {
                    return Err(Error::FbxAlreadyStarted);
                }
                match ev {
                    FbxEvent::Comment(_) => Err(Error::UnwritableEvent),
                    FbxEvent::EndNode => self.end_node(),
                    FbxEvent::EndFbx => {
                        if self.open.len() != 0 {
                            return Err(Error::UnwritableEvent);
                        }
                        self.end_fbx();
                        Ok(())
                    },
                    FbxEvent::StartNode { name, properties } => self.start_node(name, properties),
                    _ => Ok(()),
                }
            },
        }
    }

    fn record_event(&mut self, k: EventKind)
        requires
            run(old(self).history@) is Some,
        ensures
            final(self).history@ == old(self).history@.push(k),
            run(final(self).history@) == (match run(old(self).history@) {
                Some(st) => crate::stream::step(st, k),
                None => None,
            }),
            final(self).out == old(self).out,
            final(self).open == old(self).open,
            final(self).has_child == old(self).has_child,
            final(self).started == old(self).started,
            final(self).closed == old(self).closed,
            final(self).wide == old(self).wide,
            final(self).version == old(self).version,
    {
        proof {
            let h = self.history@.push(k);
            assert(h.drop_last() =~= self.history@);
            self.history = Ghost(h);
        }
    }

    fn start(&mut self, v: u32)
        requires
            old(self).wf(),
            !old(self).started,
            supported_version(v),
        ensures
            final(self).wf(),
            final(self).bytes() == old(self).bytes() + magic() + bytes32(v),
            final(self).history() == old(self).history().push(EventKind::StartFbx),
            Self::state_after(*old(self), *final(self), FbxEvent::StartFbx(FbxFormatType::Binary(v))),
    {
        let m: Vec<u8> = vec![75u8, 97, 121, 100, 97, 114, 97, 32, 70, 66, 88, 32, 66, 105, 110, 97, 114, 121, 32, 32, 0, 26, 0];
        assert(m@ =~= magic());
        push_slice(&mut self.out, m.as_slice());
        push_u32(&mut self.out, v);
        self.started = true;
        self.version = v;
        self.wide = v >= 7500;
        self.record_event(EventKind::StartFbx);
    }

    #[verifier::rlimit(40)]
    fn start_node(&mut self, name: &String, properties: &Vec<Property>) -> (r: Result<(), Error>)
        requires
            old(self).wf(),
            old(self).started && !old(self).closed,
        ensures
            final(self).wf(),
            match old(self).refusal(FbxEvent::StartNode { name: *name, properties: *properties }) {
                Some(f) => r matches Err(e) && refusal_of(e) == f && *final(self) == *old(self),
                None => r is Ok && final(self).bytes() == old(self).bytes() + node_head(name@, properties@, old(self).wide())
                    && final(self).history() == old(self).history().push(EventKind::StartNode)
                    && Self::state_after(*old(self), *final(self), FbxEvent::StartNode { name: *name, properties: *properties }),
            },
    {
        let name_bytes = name.as_str().as_bytes();
        if name_bytes.len() > 255 {
            return Err(Error::DataTooLarge("node name".to_string()));
        }
        if !all_encodable(properties) {
            return Err(Error::DataTooLarge("property".to_string()));
        }
        let mut pb: Vec<u8> = Vec::new();
        encode_properties(&mut pb, properties);
        assert(pb@ =~= properties_bytes(properties@.map_values(|p: Property| p@)));
        proof {
            assert(name_bytes@ == encode_utf8(name@));
            assert(node_head(name@, properties@, false).len() == 13 + name_bytes@.len() + pb@.len());
        }
        if !self.wide {
            let room: usize = 0xffff_ffff - self.out.len();
            if properties.len() > 0xffff_ffff || room < 13 || room - 13 < name_bytes.len()
                || room - 13 - name_bytes.len() < pb.len() {
                assert(old(self).node_too_large(name@, properties@));
                return Err(Error::DataTooLarge("offset".to_string()));
            }
        }
        let ghost start = self.out@;
        let at = self.out.len();
        push_field(&mut self.out, 0, self.wide);
        push_field(&mut self.out, properties.len() as u64, self.wide);
        push_field(&mut self.out, pb.len() as u64, self.wide);
        self.out.push(name_bytes.len() as u8);
        push_slice(&mut self.out, name_bytes);
        push_slice(&mut self.out, pb.as_slice());
        assert(self.out@ =~= start + node_head(name@, properties@, self.wide));
        let depth = self.open.len();
        if depth > 0 {
            self.has_child.set(depth - 1, true);
        }
        self.open.push(at);
        self.has_child.push(false);
        self.record_event(EventKind::StartNode);
        proof {
            assert forall|k: int| 0 <= k < self.open@.len() implies self.open@[k] + field_width(self.wide) <= self.out@.len() by {
                if k < depth {
                    assert(self.open@[k] == old(self).open@[k]);
                }
            }
        }
        Ok(())
    }

    fn end_node(&mut self) -> (r: Result<(), Error>)
        requires
            old(self).wf(),
            old(self).started && !old(self).closed,
        ensures
            final(self).wf(),
            match old(self).refusal(FbxEvent::EndNode) {
                Some(f) => r matches Err(e) && refusal_of(e) == f && *final(self) == *old(self),
                None => r is Ok && final(self).bytes() == old(self).written(FbxEvent::EndNode)
                    && final(self).history() == old(self).history().push(EventKind::EndNode)
                    && Self::state_after(*old(self), *final(self), FbxEvent::EndNode),
            },
    {
        let depth = self.open.len();
        if depth == 0 {
            return Err(Error::ExtraEndNode);
        }
        let w: usize = if self.wide { 8 } else { 4 };
        let child = self.has_child[depth - 1];
        if !self.wide && child && 0xffff_ffff - self.out.len() < 13 {
            return Err(Error::DataTooLarge("offset".to_string()));
        }
        if child {
            push_zeros(&mut self.out, 3 * w + 1);
        }
        let at = self.open.pop().unwrap();
        self.has_child.pop();
        let end = self.out.len() as u64;
        patch_field(&mut self.out, at, end, self.wide);
        self.record_event(EventKind::EndNode);
        proof {
            assert forall|k: int| 0 <= k < self.open@.len() implies self.open@[k] + field_width(self.wide) <= self.out@.len() by {
                assert(self.open@[k] == old(self).open@[k]);
            }
        }
        Ok(())
    }

    fn end_fbx(&mut self)
        requires
            old(self).wf(),
            old(self).started && !old(self).closed,
            old(self).open@.len() == 0,
        ensures
            final(self).wf(),
            final(self).bytes() == old(self).bytes() + null_record(old(self).wide()) + footer(old(self).version()),
            final(self).history() == old(self).history().push(EventKind::EndFbx),
            Self::state_after(*old(self), *final(self), FbxEvent::EndFbx),
    {
        let w: usize = if self.wide { 8 } else { 4 };
        let ghost start = self.out@;
        push_zeros(&mut self.out, 3 * w + 1);
        let id: Vec<u8> = vec![0xfau8, 0xbc, 0xab, 0x09, 0xd0, 0xc8, 0xd4, 0x66, 0xb1, 0x76, 0xfb, 0x83, 0x1c, 0xf7, 0x26, 0x7e];
        let fm: Vec<u8> = vec![0xf8u8, 0x5a, 0x8c, 0x6a, 0xde, 0xf5, 0xd9, 0x7e, 0xec, 0xe9, 0x0c, 0xe3, 0x75, 0x8f, 0x29, 0x0b];
        assert(id@ =~= footer_id());
        assert(fm@ =~= footer_magic());
        push_slice(&mut self.out, id.as_slice());
        push_zeros(&mut self.out, 4);
        push_u32(&mut self.out, self.version);
        push_zeros(&mut self.out, 120);
        push_slice(&mut self.out, fm.as_slice());
        assert(self.out@ =~= start + null_record(self.wide) + footer(self.version));
        self.closed = true;
        self.record_event(EventKind::EndFbx);
    }
}

/// Whether every property can be encoded.
fn all_encodable(properties: &Vec<Property>) -> (r: bool)
    ensures
        r == forall|k: int| 0 <= k < properties@.len() ==> encodable(#[trigger] properties@[k]@),
        !r ==> exists|k: int| 0 <= k < properties@.len() && !encodable(#[trigger] properties@[k]@),
{
    let mut i: usize = 0;
    while i < properties.len()
        invariant
            i <= properties@.len(),
            forall|k: int| 0 <= k < i ==> encodable(#[trigger] properties@[k]@),
        decreases properties@.len() - i,
    {
        if !is_encodable(&properties[i]) {
            assert(!encodable(properties@[i as int]@));
            return false;
        }
        i = i + 1;
    }
    true
}

fn push_zeros(out: &mut Vec<u8>, n: usize)
    ensures
        final(out)@ == old(out)@ + zeros(n as nat),
{
    let ghost start = out@;
    let mut i: usize = 0;
    while i < n
        invariant
            i <= n,
            out@ =~= start + zeros(i as nat),
        decreases n - i,
    {
        out.push(0);
        i = i + 1;
    }
}

/// Overwrites the field at `at` with `x`.
fn patch_field(out: &mut Vec<u8>, at: usize, x: u64, wide: bool)
    requires
        at + field_width(wide) <= old(out)@.len(),
        wide || x <= u32::MAX,
    ensures
        final(out)@ == patch(old(out)@, at as int, field_bytes(x, wide)),
{
    let ghost start = out@;
    let olen = out.len();
    let mut b: Vec<u8> = Vec::new();
    push_field(&mut b, x, wide);
    assert(b@ =~= field_bytes(x, wide));
    let mut i: usize = 0;
    while i < b.len()
        invariant
            i <= b@.len(),
            b@.len() == field_width(wide),
            at + b@.len() <= start.len(),
            out@.len() == start.len(),
            start.len() == olen,
            out@ =~= start.subrange(0, at as int) + b@.subrange(0, i as int) + start.subrange(at + i, start.len() as int),
        decreases b@.len() - i,
    {
        out.set(at + i, b[i]);
        i = i + 1;
    }
    assert(b@.subrange(0, i as int) =~= b@);
}

/// The events accepted by a writer always form a well-shaped stream: `StartFbx`
/// first and only there, `EndFbx` at most once and last, as many `EndNode`
/// as `StartNode` events once `EndFbx` is in, and never more `EndNode` than
/// `StartNode` events in any prefix.
pub proof fn lemma_writer_stream_shape(x: &EventWriter)
    requires
        x.wf(),
    ensures
        x.history().len() > 0 ==> x.history()[0] == EventKind::StartFbx,
        forall|i: int| 0 < i < x.history().len() ==> x.history()[i] != EventKind::StartFbx,
        forall|i: int| 0 <= i < x.history().len() - 1 ==> x.history()[i] != EventKind::EndFbx,
        (x.history().len() > 0 && x.history().last() == EventKind::EndFbx) ==> count(x.history(), EventKind::StartNode)
            == count(x.history(), EventKind::EndNode),
        forall|n: int| 0 <= n <= x.history().len() ==> count(#[trigger] x.history().subrange(0, n), EventKind::StartNode)
            >= count(x.history().subrange(0, n), EventKind::EndNode),
{
    lemma_bracketing(x.history());
    lemma_depth_counts(x.history());
    assert forall|n: int| 0 <= n <= x.history().len() implies count(#[trigger] x.history().subrange(0, n), EventKind::StartNode)
        >= count(x.history().subrange(0, n), EventKind::EndNode) by {
        lemma_nesting_never_negative(x.history(), n);
    }
}

/// Patching the end offset into a written node head gives the record head
/// with that end offset.
pub proof fn lemma_patch_head(name: Seq<char>, props: Seq<Property>, wide: bool, end: u64)
    requires
        wide || end <= u32::MAX,
    ensures
        patch(node_head(name, props, wide), 0, field_bytes(end, wide))
            == record_head(end, name, props.map_values(|p: Property| p@), wide),
{
    let vs = props.map_values(|p: Property| p@);
    let h = node_head(name, props, wide);
    let w = field_width(wide);
    lemma_field_round_trip(Seq::empty(), end, wide, Seq::empty());
    lemma_field_round_trip(Seq::empty(), 0, wide, Seq::empty());
    assert(h.subrange(w, h.len() as int) =~= record_head(end, name, vs, wide).subrange(w, h.len() as int));
    assert(patch(h, 0, field_bytes(end, wide)) =~= record_head(end, name, vs, wide));
}

proof fn lemma_field_at_sub(s: Seq<u8>, pos: int, x: u64, wide: bool)
    requires
        0 <= pos,
        pos + field_width(wide) <= s.len(),
        s.subrange(pos, pos + field_width(wide)) == field_bytes(x, wide),
        wide || x <= u32::MAX,
    ensures
        field_at(s, pos, wide) == Some(x),
{
    let w = field_width(wide);
    lemma_field_round_trip(s.subrange(0, pos), x, wide, s.subrange(pos + w, s.len() as int));
    assert(s =~= s.subrange(0, pos) + field_bytes(x, wide) + s.subrange(pos + w, s.len() as int));
}

proof fn lemma_inner(pre: Seq<u8>, r: Seq<u8>, post: Seq<u8>, a: int, b: int)
    requires
        0 <= a <= b <= r.len(),
    ensures
        (pre + r + post).subrange(pre.len() + a, pre.len() + b) == r.subrange(a, b),
{
    assert((pre + r + post).subrange(pre.len() + a, pre.len() + b) =~= r.subrange(a, b));
}

proof fn lemma_record_parts(end: u64, name: Seq<char>, props: Seq<PropertyValue>, wide: bool)
    ensures
        ({
            let r = record_head(end, name, props, wide);
            let w = field_width(wide);
            let nb = encode_utf8(name);
            let pb = properties_bytes(props);
            &&& r.len() == 3 * w + 1 + nb.len() + pb.len()
            &&& r.subrange(0, w) == field_bytes(end, wide)
            &&& r.subrange(w, 2 * w) == field_bytes(props.len() as u64, wide)
            &&& r.subrange(2 * w, 3 * w) == field_bytes(pb.len() as u64, wide)
            &&& r[3 * w] == nb.len() as u8
            &&& r.subrange(3 * w + 1, 3 * w + 1 + nb.len()) == nb
            &&& r.subrange(3 * w + 1 + nb.len(), r.len() as int) == pb
        }),
{
    let w = field_width(wide);
    let nb = encode_utf8(name);
    let pb = properties_bytes(props);
    let f0 = field_bytes(end, wide);
    let f1 = field_bytes(props.len() as u64, wide);
    let f2 = field_bytes(pb.len() as u64, wide);
    assert(f0.len() == w && f1.len() == w && f2.len() == w) by {
        if wide {
            crate::wire::lemma_le64_bytes(end);
            crate::wire::lemma_le64_bytes(props.len() as u64);
            crate::wire::lemma_le64_bytes(pb.len() as u64);
        } else {
            crate::wire::lemma_le32_bytes(end as u32);
            crate::wire::lemma_le32_bytes(props.len() as u32);
            crate::wire::lemma_le32_bytes(pb.len() as u32);
        }
    }
    let r = record_head(end, name, props, wide);
    assert(r.subrange(0, w) =~= f0);
    assert(r.subrange(w, 2 * w) =~= f1);
    assert(r.subrange(2 * w, 3 * w) =~= f2);
    assert(r.subrange(3 * w + 1, 3 * w + 1 + nb.len()) =~= nb);
    assert(r.subrange(3 * w + 1 + nb.len(), r.len() as int) =~= pb);
}

proof fn lemma_record_header(pre: Seq<u8>, end: u64, name: Seq<char>, props: Seq<PropertyValue>, wide: bool, post: Seq<u8>)
    requires
        wide || (end <= u32::MAX && props.len() <= u32::MAX && properties_bytes(props).len() <= u32::MAX),
        properties_bytes(props).len() <= u64::MAX,
        props.len() <= u64::MAX,
    ensures
        parse_record_header(pre + record_head(end, name, props, wide) + post, pre.len() as int, wide) == Ok::<(RecordHeader, int), (Fault, int)>((
            RecordHeader {
                end,
                nprops: props.len() as u64,
                plen: properties_bytes(props).len() as u64,
                name_len: encode_utf8(name).len() as u8,
            },
            pre.len() + 3 * field_width(wide) + 1,
        )),
{
    let r = record_head(end, name, props, wide);
    let s = pre + r + post;
    let w = field_width(wide);
    let base = pre.len() as int;
    lemma_record_parts(end, name, props, wide);
    lemma_inner(pre, r, post, 0, w);
    lemma_inner(pre, r, post, w, 2 * w);
    lemma_inner(pre, r, post, 2 * w, 3 * w);
    lemma_field_at_sub(s, base, end, wide);
    lemma_field_at_sub(s, base + w, props.len() as u64, wide);
    lemma_field_at_sub(s, base + 2 * w, properties_bytes(props).len() as u64, wide);
    assert(s[base + 3 * w] == r[3 * w]);
}

#[verifier::rlimit(100)]
/// A node record as the writer lays it out, at `pre.len()` and with its end
/// offset `end` patched in, decodes back to the same name and properties,
/// whatever follows and for any enclosing node that holds it; the cursor
/// then stands right after the record's head. A node without children (its
/// end offset right after the head) then closes at once.
pub proof fn lemma_record_round_trip(
    pre: Seq<u8>,
    name: Seq<char>,
    props: Seq<PropertyValue>,
    wide: bool,
    end: u64,
    post: Seq<u8>,
    stack: Seq<u64>,
)
    requires
        encode_utf8(name).len() <= 255,
        forall|i: int| 0 <= i < props.len() ==> encodable(#[trigger] props[i]),
        pre.len() + record_head(0, name, props, wide).len() <= end,
        wide || end <= u32::MAX,
        stack.len() > 0 ==> pre.len() < stack.last() && end <= stack.last(),
    ensures
        ({
            let head_end = (pre.len() + record_head(0, name, props, wide).len()) as int;
            let s = pre + record_head(end, name, props, wide) + post;
            &&& body_step(s, wide, pre.len() as int, stack) == Step::Event(
                BodyEvent::StartNode(name, props), head_end, stack.push(end))
            &&& end == head_end ==> body_step(s, wide, end as int, stack.push(end)) == Step::Event(
                BodyEvent::EndNode, end as int, stack)
        }),
{
    let pb = properties_bytes(props);
    let nb = encode_utf8(name);
    let w = field_width(wide);
    let r = record_head(end, name, props, wide);
    let s = pre + r + post;
    let base = pre.len() as int;
    let q = base + 3 * w + 1;
    lemma_record_parts(0, name, props, wide);
    lemma_record_parts(end, name, props, wide);
    assert(props.len() <= pb.len()) by {
        lemma_properties_len(props);
    }
    lemma_record_header(pre, end, name, props, wide, post);
    lemma_inner(pre, r, post, 3 * w + 1, 3 * w + 1 + nb.len());
    encode_utf8_valid_utf8(name);
    encode_utf8_decode_utf8(name);
    let pre2 = pre + r.subrange(0, 3 * w + 1 + nb.len());
    assert(s =~= pre2 + pb + post);
    lemma_properties_round_trip(pre2, props, post);
    let pp = q + nb.len();
    assert(s.subrange(q, pp) == nb);
    assert(parse_properties(s, pp, props.len()) == Ok::<(Seq<PropertyValue>, int), (Fault, int)>((props, pp + pb.len())));
    assert(end != 0);
    assert(body_step(s, wide, base, stack) == Step::Event(BodyEvent::StartNode(name, props), pp + pb.len(), stack.push(end)));
    assert(stack.push(end).drop_last() =~= stack);
}

proof fn lemma_zero_field(wide: bool)
    ensures
        field_bytes(0, wide) == zeros(field_width(wide) as nat),
{
    assert((0u32 & 0xff) as u8 == 0u8) by (bit_vector);
    assert(((0u32 >> 8u32) & 0xff) as u8 == 0u8) by (bit_vector);
    assert(((0u32 >> 16u32) & 0xff) as u8 == 0u8) by (bit_vector);
    assert((0u32 >> 24u32) as u8 == 0u8) by (bit_vector);
    assert(bytes32(0u32) =~= zeros(4));
    if wide {
        assert(((0u64 & 0xffff_ffff) as u32) == 0u32) by (bit_vector);
        assert((0u64 >> 32u64) as u32 == 0u32) by (bit_vector);
        assert(field_bytes(0, wide) =~= zeros(8));
    }
}

#[verifier::rlimit(100)]
/// The null record that the writer puts after a node's last child closes
/// that node when the node's end offset lies right after it, and ends the
/// document where no node is open.
pub proof fn lemma_null_record_closes(pre: Seq<u8>, wide: bool, post: Seq<u8>, stack: Seq<u64>)
    requires
        stack.len() > 0 ==> stack.last() == pre.len() + null_record(wide).len(),
    ensures
        ({
            let s = pre + null_record(wide) + post;
            let q = (pre.len() + null_record(wide).len()) as int;
            &&& stack.len() > 0 ==> body_step(s, wide, pre.len() as int, stack) == Step::Event(
                BodyEvent::EndNode, q, stack.drop_last())
            &&& stack.len() == 0 ==> body_step(s, wide, pre.len() as int, stack) == Step::Event(
                BodyEvent::EndFbx, q, stack)
        }),
{
    let z = null_record(wide);
    let s = pre + z + post;
    let w = field_width(wide);
    let base = pre.len() as int;
    lemma_zero_field(wide);
    assert(z.subrange(0, w) =~= field_bytes(0, wide));
    assert(z.subrange(w, 2 * w) =~= z.subrange(0, w));
    assert(z.subrange(2 * w, 3 * w) =~= z.subrange(0, w));
    lemma_inner(pre, z, post, 0, w);
    lemma_inner(pre, z, post, w, 2 * w);
    lemma_inner(pre, z, post, 2 * w, 3 * w);
    lemma_field_at_sub(s, base, 0, wide);
    lemma_field_at_sub(s, base + w, 0, wide);
    lemma_field_at_sub(s, base + 2 * w, 0, wide);
    assert(s[base + 3 * w] == z[3 * w]);
}

/// A property list takes at least one byte per property.
proof fn lemma_properties_len(props: Seq<PropertyValue>)
    ensures
        props.len() <= properties_bytes(props).len(),
    decreases props.len(),
{
    if props.len() > 0 {
        lemma_properties_len(props.drop_first());
    }
}

} // verus!
