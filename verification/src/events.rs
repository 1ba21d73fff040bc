//! The XML structural event model the codec reads and writes.
//!
//! An event stream is a flat list: document start and end, element start
//! (with qualified name, attributes and the namespace bindings declared on
//! it), element end, character data, CDATA, and processing instructions.
//! Character data and CDATA are equivalent text to the decoder.

use vstd::prelude::*;

verus! {

/// Mathematical model of a qualified name.
pub struct NameV {
    pub local_name: Seq<char>,
    pub namespace: Option<Seq<char>>,
    pub prefix: Option<Seq<char>>,
}

/// Mathematical model of one attribute.
pub struct AttrV {
    pub name: NameV,
    pub value: Seq<char>,
}

/// Mathematical model of one namespace binding (prefix to URI; an empty
/// prefix stands for the default namespace).
pub struct NsBindingV {
    pub prefix: Seq<char>,
    pub uri: Seq<char>,
}

/// Mathematical model of one XML structural event.
pub enum EventV {
    StartDocument,
    EndDocument,
    StartElement { name: NameV, attributes: Seq<AttrV>, namespace: Seq<NsBindingV> },
    EndElement { name: NameV },
    Characters(Seq<char>),
    CData(Seq<char>),
    Comment(Seq<char>),
    Doctype(Seq<char>),
    ProcessingInstruction { target: Seq<char>, data: Option<Seq<char>> },
}

impl EventV {
    /// True of the two text event kinds, which the decoder treats alike.
    pub open spec fn is_text(self) -> bool {
        self is Characters || self is CData
    }

    /// The character data of a text event.
    pub open spec fn text(self) -> Seq<char>
        recommends
            self.is_text(),
    {
        match self {
            EventV::Characters(s) => s,
            EventV::CData(s) => s,
            _ => Seq::empty(),
        }
    }
}

/// A qualified XML name: local name with optional namespace URI and prefix.
pub struct QName {
    pub local_name: String,
    pub namespace: Option<String>,
    pub prefix: Option<String>,
}

/// One attribute of an element.
pub struct Attribute {
    pub name: QName,
    pub value: String,
}

/// One namespace binding declared on an element.
pub struct NsBinding {
    pub prefix: String,
    pub uri: String,
}

/// One XML structural event.
pub enum Event {
    StartDocument,
    EndDocument,
    StartElement { name: QName, attributes: Vec<Attribute>, namespace: Vec<NsBinding> },
    EndElement { name: QName },
    Characters(String),
    CData(String),
    Comment(String),
    Doctype(String),
    ProcessingInstruction { target: String, data: Option<String> },
}

impl DeepView for QName {
    type V = NameV;

    open spec fn deep_view(&self) -> NameV {
        NameV {
            local_name: self.local_name@,
            namespace: match self.namespace {
                Some(ref x) => Some(x@),
                None => None,
            },
            prefix: match self.prefix {
                Some(ref x) => Some(x@),
                None => None,
            },
        }
    }
}

impl DeepView for Attribute {
    type V = AttrV;

    open spec fn deep_view(&self) -> AttrV {
        AttrV { name: self.name.deep_view(), value: self.value@ }
    }
}

impl DeepView for NsBinding {
    type V = NsBindingV;

    open spec fn deep_view(&self) -> NsBindingV {
        NsBindingV { prefix: self.prefix@, uri: self.uri@ }
    }
}

impl DeepView for Event {
    type V = EventV;

    open spec fn deep_view(&self) -> EventV {
        match self {
            Event::StartDocument => EventV::StartDocument,
            Event::EndDocument => EventV::EndDocument,
            Event::StartElement { name, attributes, namespace } => EventV::StartElement {
                name: name.deep_view(),
                attributes: attributes.deep_view(),
                namespace: namespace.deep_view(),
            },
            Event::EndElement { name } => EventV::EndElement { name: name.deep_view() },
            Event::Characters(s) => EventV::Characters(s@),
            Event::CData(s) => EventV::CData(s@),
            Event::Comment(s) => EventV::Comment(s@),
            Event::Doctype(s) => EventV::Doctype(s@),
            Event::ProcessingInstruction { target, data } => EventV::ProcessingInstruction {
                target: target@,
                data: match data {
                    Some(ref x) => Some(x@),
                    None => None,
                },
            },
        }
    }
}

/// Clones an optional string; the copy has the same characters.
pub fn clone_opt_string(x: &Option<String>) -> (r: Option<String>)
    ensures
        r.deep_view() == x.deep_view(),
{
    match x {
        Some(s) => Some(s.clone()),
        None => None,
    }
}

impl QName {
    /// Copies the name.
    pub fn duplicate(&self) -> (r: QName)
        ensures
            r.deep_view() == self.deep_view(),
    {
        QName {
            local_name: self.local_name.clone(),
            namespace: clone_opt_string(&self.namespace),
            prefix: clone_opt_string(&self.prefix),
        }
    }

    /// Whether two qualified names are equal in all three parts.
    pub fn eq_name(&self, other: &QName) -> (r: bool)
        ensures
            r == (self.deep_view() == other.deep_view()),
    {
        if !self.local_name.eq(&other.local_name) {
            return false;
        }
        let ns_eq = match (&self.namespace, &other.namespace) {
            (Some(a), Some(b)) => a.eq(b),
            (None, None) => true,
            _ => false,
        };
        if !ns_eq {
            return false;
        }
        match (&self.prefix, &other.prefix) {
            (Some(a), Some(b)) => a.eq(b),
            (None, None) => true,
            _ => false,
        }
    }
}

impl Attribute {
    /// Copies the attribute.
    pub fn duplicate(&self) -> (r: Attribute)
        ensures
            r.deep_view() == self.deep_view(),
    {
        Attribute { name: self.name.duplicate(), value: self.value.clone() }
    }
}

impl NsBinding {
    /// Copies the binding.
    pub fn duplicate(&self) -> (r: NsBinding)
        ensures
            r.deep_view() == self.deep_view(),
    {
        NsBinding { prefix: self.prefix.clone(), uri: self.uri.clone() }
    }
}

/// Copies a list of attributes.
pub fn clone_attrs(xs: &Vec<Attribute>) -> (r: Vec<Attribute>)
    ensures
        r.deep_view() == xs.deep_view(),
{
    let mut r: Vec<Attribute> = Vec::new();
    let mut i: usize = 0;
    while i < xs.len()
        invariant
            i <= xs.len(),
            r.deep_view() =~= xs.deep_view().subrange(0, i as int),
        decreases xs.len() - i,
    {
        let ghost prev = r.deep_view();
        r.push(xs[i].duplicate());
        proof {
            assert(r.deep_view() =~= prev.push(xs@[i as int].deep_view()));
        }
        i = i + 1;
    }
    proof {
        assert(r.deep_view() =~= xs.deep_view());
    }
    r
}

/// Copies a list of namespace bindings.
pub fn clone_ns(xs: &Vec<NsBinding>) -> (r: Vec<NsBinding>)
    ensures
        r.deep_view() == xs.deep_view(),
{
    let mut r: Vec<NsBinding> = Vec::new();
    let mut i: usize = 0;
    while i < xs.len()
        invariant
            i <= xs.len(),
            r.deep_view() =~= xs.deep_view().subrange(0, i as int),
        decreases xs.len() - i,
    {
        let ghost prev = r.deep_view();
        r.push(xs[i].duplicate());
        proof {
            assert(r.deep_view() =~= prev.push(xs@[i as int].deep_view()));
        }
        i = i + 1;
    }
    proof {
        assert(r.deep_view() =~= xs.deep_view());
    }
    r
}

impl Event {
    /// Copies the event.
    pub fn duplicate(&self) -> (r: Event)
        ensures
            r.deep_view() == self.deep_view(),
    {
        match self {
            Event::StartDocument => Event::StartDocument,
            Event::EndDocument => Event::EndDocument,
            Event::StartElement { name, attributes, namespace } => Event::StartElement {
                name: name.duplicate(),
                attributes: clone_attrs(attributes),
                namespace: clone_ns(namespace),
            },
            Event::EndElement { name } => Event::EndElement { name: name.duplicate() },
            Event::Characters(s) => Event::Characters(s.clone()),
            Event::CData(s) => Event::CData(s.clone()),
            Event::Comment(s) => Event::Comment(s.clone()),
            Event::Doctype(s) => Event::Doctype(s.clone()),
            Event::ProcessingInstruction { target, data } => Event::ProcessingInstruction {
                target: target.clone(),
                data: clone_opt_string(data),
            },
        }
    }
}

} // verus!
