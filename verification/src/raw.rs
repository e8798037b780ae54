//! An element as collected from the XML (start tag, children, end tag) before
//! it becomes a BPMN element.
use vstd::prelude::*;
use crate::bpmn::{Symbol, ActivityType, GatewayType, Attrib, ElementKind, Bpmn, Event, Activity, Gateway, Id,
    Outputs, BpmnError, BpmnValidate, parse_attrib, spec_attrib, spec_gateway_text, spec_event_text,
    spec_activity_text, spec_event_needs_output};
use crate::text::owned;

verus! {

/// The value of the last attribute with the given key.
pub open spec fn spec_attr(attrs: Seq<(Attrib, String)>, a: Attrib) -> Option<String>
    decreases attrs.len(),
{
    if attrs.len() == 0 {
        None
    } else if attrs.last().0 == a {
        Some(attrs.last().1)
    } else {
        spec_attr(attrs.drop_last(), a)
    }
}

/// Whether an attribute read from XML is kept: it was read without error,
/// its value is not empty and its name is one the reader knows.
pub open spec fn spec_keep_attr(a: Option<(String, String)>) -> bool {
    match a {
        Some((k, v)) => v@.len() > 0 && spec_attrib(k@) is Some,
        None => false,
    }
}

/// The attributes that are kept, in order.
pub open spec fn spec_collect_attributes(raw: Seq<Option<(String, String)>>) -> Seq<(Attrib, String)>
    decreases raw.len(),
{
    if raw.len() == 0 {
        Seq::empty()
    } else {
        let rest = spec_collect_attributes(raw.drop_last());
        let a = raw.last();
        match a {
            Some((k, v)) => if spec_keep_attr(a) {
                rest.push((spec_attrib(k@)->0, v))
            } else {
                rest
            },
            None => rest,
        }
    }
}

/// Keeps the attributes that were read without error, have a value and a known name.
pub fn collect_attributes(raw: &Vec<Option<(String, String)>>) -> (r: Vec<(Attrib, String)>)
    ensures
        r@ == spec_collect_attributes(raw@),
{
    let mut r: Vec<(Attrib, String)> = Vec::new();
    let mut i: usize = 0;
    proof {
        assert(raw@.subrange(0, 0) =~= Seq::<Option<(String, String)>>::empty());
    }
    while i < raw.len()
        invariant
            i <= raw@.len(),
            r@ == spec_collect_attributes(raw@.subrange(0, i as int)),
        decreases raw@.len() - i,
    {
        proof {
            assert(raw@.subrange(0, i + 1).drop_last() =~= raw@.subrange(0, i as int));
        }
        match &raw[i] {
            Some((key, value)) => {
                if !value.as_str().is_empty() {
                    match parse_attrib(key.as_str()) {
                        Some(a) => {
                            r.push((a, value.clone()));
                        },
                        None => {},
                    }
                }
            },
            None => {},
        }
        i = i + 1;
    }
    proof {
        assert(raw@.subrange(0, raw@.len() as int) =~= raw@);
    }
    r
}


/// An element collected from its start tag up to its end tag.
pub struct RawData {
    /// The element's local name.
    pub bpmn_type: String,
    pub kind: ElementKind,
    pub attributes: Vec<(Attrib, String)>,
    pub symbol: Option<Symbol>,
    /// For a subprocess: the index of its own process data.
    pub data_index: Option<usize>,
    pub outputs: Vec<String>,
    pub inputs: Vec<String>,
}

impl RawData {
    /// The raw data of a start tag: no symbol, subprocess data, outputs or inputs yet.
    pub fn new(bpmn_type: String, kind: ElementKind, attributes: Vec<(Attrib, String)>) -> (r: RawData)
        ensures
            r.bpmn_type == bpmn_type,
            r.kind == kind,
            r.attributes == attributes,
            r.symbol is None,
            r.data_index is None,
            r.outputs@.len() == 0,
            r.inputs@.len() == 0,
    {
        RawData { bpmn_type, kind, attributes, symbol: None, data_index: None, outputs: Vec::new(), inputs: Vec::new() }
    }

    /// The value of an attribute (the last one with that key).
    pub fn attr(&self, a: Attrib) -> (r: Option<&String>)
        ensures
            match r {
                Some(v) => spec_attr(self.attributes@, a) == Some(*v),
                None => spec_attr(self.attributes@, a) is None,
            },
    {
        let mut i = self.attributes.len();
        proof {
            assert(self.attributes@.subrange(0, i as int) =~= self.attributes@);
        }
        while i > 0
            invariant
                i <= self.attributes@.len(),
                spec_attr(self.attributes@, a) == spec_attr(self.attributes@.subrange(0, i as int), a),
            decreases i,
        {
            proof {
                assert(self.attributes@.subrange(0, i as int).drop_last() =~= self.attributes@.subrange(0, i - 1));
            }
            if self.attributes[i - 1].0 == a {
                return Some(&self.attributes[i - 1].1);
            }
            i = i - 1;
        }
        proof {
            assert(self.attributes@.subrange(0, 0) =~= Seq::<(Attrib, String)>::empty());
        }
        None
    }

    fn attr_owned(&self, a: Attrib) -> (r: Option<String>)
        ensures
            r == spec_attr(self.attributes@, a),
    {
        match self.attr(a) {
            Some(v) => Some(v.clone()),
            None => None,
        }
    }

    /// The name if there is one, else the id.
    pub fn name_or_id(&self) -> (r: Result<&String, BpmnError>)
        ensures
            spec_attr(self.attributes@, Attrib::Name) is Some
                ==> r == Ok::<&String, BpmnError>(&spec_attr(self.attributes@, Attrib::Name)->0),
            spec_attr(self.attributes@, Attrib::Name) is None && spec_attr(self.attributes@, Attrib::Id) is Some
                ==> r == Ok::<&String, BpmnError>(&spec_attr(self.attributes@, Attrib::Id)->0),
            spec_attr(self.attributes@, Attrib::Name) is None && spec_attr(self.attributes@, Attrib::Id) is None
                ==> (r matches Err(BpmnError::MissingId(t)) && t@ == self.bpmn_type@),
    {
        match self.attr(Attrib::Name) {
            Some(n) => Ok(n),
            None => match self.attr(Attrib::Id) {
                Some(i) => Ok(i),
                None => Err(BpmnError::MissingId(owned(self.bpmn_type.as_str()))),
            },
        }
    }
}

/// An optional reference that does not point anywhere yet.
pub open spec fn opt_id(o: Option<String>) -> Option<Id> {
    match o {
        Some(s) => Some(Id { bpmn_id: s, local_id: 0 }),
        None => None,
    }
}

/// Outputs with the given ids, not yet pointing anywhere.
pub open spec fn fresh_outputs(o: Outputs, ids: Vec<String>) -> bool {
    &&& o.bpmn_ids == ids
    &&& o.local_ids@ == Seq::new(ids@.len(), |i: int| 0usize)
}

/// `b` is the element that `raw` describes (before any check of it).
pub open spec fn spec_made_from(raw: RawData, b: Bpmn) -> bool {
    let id = Id { bpmn_id: spec_attr(raw.attributes@, Attrib::Id)->0, local_id: 0 };
    let name = spec_attr(raw.attributes@, Attrib::Name);
    match raw.kind {
        ElementKind::Event(t) => b matches Bpmn::Event(e) && e.event_type == t && e.symbol == raw.symbol
            && e.id == id && e.name == name
            && e.attached_to_ref == opt_id(spec_attr(raw.attributes@, Attrib::AttachedToRef))
            && fresh_outputs(e.outputs, raw.outputs),
        ElementKind::Activity(t) => b matches Bpmn::Activity(a) && a.activity_type == t && a.id == id
            && a.func_idx is None && a.data_index == raw.data_index && a.name == name
            && fresh_outputs(a.outputs, raw.outputs),
        ElementKind::SubProcess => b matches Bpmn::Activity(a) && a.activity_type == ActivityType::SubProcess
            && a.id == id && a.func_idx is None && a.data_index == raw.data_index && a.name == name
            && fresh_outputs(a.outputs, raw.outputs),
        ElementKind::Gateway(t) => b matches Bpmn::Gateway(g) && g.gateway_type == t && g.id == id
            && g.func_idx is None && g.name == name
            && g.default == opt_id(spec_attr(raw.attributes@, Attrib::Default))
            && fresh_outputs(g.outputs, raw.outputs)
            && g.inputs == raw.inputs@.len() as u16,
        ElementKind::SequenceFlow => b matches Bpmn::SequenceFlow { id: i, name: n, target_ref }
            && i == id && n == name
            && spec_attr(raw.attributes@, Attrib::TargetRef) is Some
            && target_ref == (Id { bpmn_id: spec_attr(raw.attributes@, Attrib::TargetRef)->0, local_id: 0 }),
        _ => false,
    }
}

/// Whether the kind of element can be made into a BPMN element.
pub open spec fn spec_kind_supported(k: ElementKind) -> bool {
    match k {
        ElementKind::Event(_) | ElementKind::Activity(_) | ElementKind::SubProcess
            | ElementKind::Gateway(_) | ElementKind::SequenceFlow => true,
        _ => false,
    }
}

/// The element passes its own checks (see `BpmnValidate`).
pub open spec fn spec_valid(b: Bpmn) -> bool {
    match b {
        Bpmn::Activity(a) => a.outputs.local_ids.len() != 0,
        Bpmn::Event(e) => !(spec_event_needs_output(e) && e.outputs.local_ids.len() == 0),
        Bpmn::Gateway(g) => !(g.gateway_type == GatewayType::EventBased && g.outputs.local_ids.len() < 2)
            && g.outputs.local_ids.len() != 0,
        Bpmn::SequenceFlow { .. } => true,
    }
}

/// The error that the element's own checks report.
pub open spec fn spec_validation_error(b: Bpmn, err: BpmnError) -> bool {
    match b {
        Bpmn::Activity(a) => err matches BpmnError::NoOutput(m) && m@ == spec_activity_text(a),
        Bpmn::Event(e) => err matches BpmnError::NoOutput(m) && m@ == spec_event_text(e),
        Bpmn::Gateway(g) => if g.gateway_type == GatewayType::EventBased && g.outputs.local_ids.len() < 2 {
            err matches BpmnError::BpmnRequirement(m)
                && m@ == spec_gateway_text(g) + " must have at least two outgoing sequence flows"@
        } else {
            err matches BpmnError::NoOutput(m) && m@ == spec_gateway_text(g)
        },
        Bpmn::SequenceFlow { .. } => false,
    }
}

impl Bpmn {
    /// Runs the element's own checks.
    pub fn validate_element(&self) -> (r: Result<(), BpmnError>)
        ensures
            r is Ok <==> spec_valid(*self),
            r matches Err(e) ==> spec_validation_error(*self, e),
    {
        match self {
            Bpmn::Activity(a) => a.validate(),
            Bpmn::Event(e) => e.validate(),
            Bpmn::Gateway(g) => g.validate(),
            Bpmn::SequenceFlow { .. } => Ok(()),
        }
    }

    /// Makes the BPMN element that the raw data describes, and checks it.
    pub fn try_from_raw(raw: RawData) -> (r: Result<Bpmn, BpmnError>)
        ensures
            spec_attr(raw.attributes@, Attrib::Id) is None ==>
                (r matches Err(BpmnError::MissingId(t)) && t@ == raw.bpmn_type@),
            spec_attr(raw.attributes@, Attrib::Id) is Some && raw.kind == ElementKind::SequenceFlow
                && spec_attr(raw.attributes@, Attrib::TargetRef) is None ==> r matches Err(BpmnError::MissingTargetRef),
            spec_attr(raw.attributes@, Attrib::Id) is Some && !spec_kind_supported(raw.kind) ==>
                (r matches Err(BpmnError::TypeNotImplemented(t)) && t@ == raw.bpmn_type@),
            spec_attr(raw.attributes@, Attrib::Id) is Some && spec_kind_supported(raw.kind)
                && !(raw.kind == ElementKind::SequenceFlow && spec_attr(raw.attributes@, Attrib::TargetRef) is None) ==>
                exists|b: Bpmn| #[trigger] spec_made_from(raw, b) && (if spec_valid(b) {
                    r == Ok::<Bpmn, BpmnError>(b)
                } else {
                    r matches Err(e) && spec_validation_error(b, e)
                }),
    {
        let id = match raw.attr_owned(Attrib::Id) {
            Some(v) => Id::new(v),
            None => { return Err(BpmnError::MissingId(owned(raw.bpmn_type.as_str()))); },
        };
        let name = raw.attr_owned(Attrib::Name);
        let b = match raw.kind {
            ElementKind::Event(t) => {
                let attached = match raw.attr_owned(Attrib::AttachedToRef) {
                    Some(v) => Some(Id::new(v)),
                    None => None,
                };
                Bpmn::Event(Event {
                    event_type: t,
                    symbol: raw.symbol,
                    id,
                    name,
                    attached_to_ref: attached,
                    outputs: Outputs::new(raw.outputs),
                })
            },
            ElementKind::Activity(t) => Bpmn::Activity(Activity {
                activity_type: t,
                id,
                func_idx: None,
                data_index: raw.data_index,
                name,
                outputs: Outputs::new(raw.outputs),
            }),
            ElementKind::SubProcess => Bpmn::Activity(Activity {
                activity_type: ActivityType::SubProcess,
                id,
                func_idx: None,
                data_index: raw.data_index,
                name,
                outputs: Outputs::new(raw.outputs),
            }),
            ElementKind::Gateway(t) => {
                let default = match raw.attr_owned(Attrib::Default) {
                    Some(v) => Some(Id::new(v)),
                    None => None,
                };
                let inputs = raw.inputs.len() as u16;
                Bpmn::Gateway(Gateway {
                    gateway_type: t,
                    id,
                    func_idx: None,
                    name,
                    default,
                    outputs: Outputs::new(raw.outputs),
                    inputs,
                })
            },
            ElementKind::SequenceFlow => {
                let target = match raw.attr_owned(Attrib::TargetRef) {
                    Some(v) => Id::new(v),
                    None => { return Err(BpmnError::MissingTargetRef); },
                };
                Bpmn::SequenceFlow { id, name, target_ref: target }
            },
            _ => { return Err(BpmnError::TypeNotImplemented(owned(raw.bpmn_type.as_str()))); },
        };
        assert(spec_made_from(raw, b));
        match b.validate_element() {
            Ok(()) => Ok(b),
            Err(e) => Err(e),
        }
    }
}

} // verus!
