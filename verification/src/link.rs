//! Links between ports, read from their registry objects.

use vstd::prelude::*;

use crate::decimal::{decimal, decimal_string, law_decimal_round_trip, parse_u32, parse_u32_spec};
use crate::object::{
    first_entry, key_string, lemma_lookup_absent, lemma_lookup_first, lookup, lookup_prop,
    props_model, ObjectInfo, ObjectKind, ObjectModel, PropsModel,
};

verus! {

broadcast use vstd::string::group_string_axioms;

/// A link from an output port of one node to an input port of another.
#[derive(Copy, Clone, Debug)]
pub struct Link {
    id: u32,
    output_node: u32,
    output_port: u32,
    input_node: u32,
    input_port: u32,
}

/// The model of a link: its id and the ids of its two nodes and ports.
pub struct LinkModel {
    pub id: u32,
    pub output_node: u32,
    pub output_port: u32,
    pub input_node: u32,
    pub input_port: u32,
}

impl View for Link {
    type V = LinkModel;

    closed spec fn view(&self) -> LinkModel {
        LinkModel {
            id: self.id,
            output_node: self.output_node,
            output_port: self.output_port,
            input_node: self.input_node,
            input_port: self.input_port,
        }
    }
}

/// The four properties a link object must carry.
#[derive(Copy, Clone, Debug, PartialEq, Eq, Structural)]
pub enum LinkProperty {
    OutputNode,
    OutputPort,
    InputNode,
    InputPort,
}

/// Why a registry object could not be read as a link.
#[derive(Copy, Clone, Debug, PartialEq, Eq, Structural)]
pub enum LinkError {
    /// The object is not of the link type.
    NotALink,
    /// The object carries no properties.
    MissingProperties,
    /// The property is absent.
    MissingProperty(LinkProperty),
    /// The property's value is not a `u32` in decimal.
    InvalidProperty(LinkProperty),
}

/// The PipeWire key of a link property.
pub open spec fn property_key(p: LinkProperty) -> Seq<char> {
    match p {
        LinkProperty::OutputNode => "link.output.node"@,
        LinkProperty::OutputPort => "link.output.port"@,
        LinkProperty::InputNode => "link.input.node"@,
        LinkProperty::InputPort => "link.input.port"@,
    }
}

pub open spec fn key_object_linger() -> Seq<char> {
    "object.linger"@
}

impl LinkProperty {
    /// The PipeWire key of this property.
    pub fn key(self) -> (res: String)
        ensures
            res@ == property_key(self),
    {
        match self {
            LinkProperty::OutputNode => key_string("link.output.node"),
            LinkProperty::OutputPort => key_string("link.output.port"),
            LinkProperty::InputNode => key_string("link.input.node"),
            LinkProperty::InputPort => key_string("link.input.port"),
        }
    }
}

/// The value of property `p` in `props`, read as a `u32`.
pub open spec fn property_value(props: PropsModel, p: LinkProperty) -> Result<u32, LinkError> {
    match lookup(props, property_key(p)) {
        None => Err(LinkError::MissingProperty(p)),
        Some(v) => match parse_u32_spec(v) {
            Some(n) => Ok(n),
            None => Err(LinkError::InvalidProperty(p)),
        },
    }
}

/// Reading a registry object as a link: it must be of the link type and carry
/// the four properties, read in the order output node, output port, input
/// node, input port; the first that is missing or not a number is the error.
pub open spec fn link_from_object_spec(o: ObjectModel) -> Result<LinkModel, LinkError> {
    if o.kind != ObjectKind::Link {
        Err(LinkError::NotALink)
    } else {
        match o.props {
            None => Err(LinkError::MissingProperties),
            Some(p) => match property_value(p, LinkProperty::OutputNode) {
                Err(e) => Err(e),
                Ok(output_node) => match property_value(p, LinkProperty::OutputPort) {
                    Err(e) => Err(e),
                    Ok(output_port) => match property_value(p, LinkProperty::InputNode) {
                        Err(e) => Err(e),
                        Ok(input_node) => match property_value(p, LinkProperty::InputPort) {
                            Err(e) => Err(e),
                            Ok(input_port) => Ok(
                                LinkModel { id: o.id, output_node, output_port, input_node, input_port },
                            ),
                        },
                    },
                },
            },
        }
    }
}

/// The properties with which a link is created again: its nodes and ports in
/// decimal, and `object.linger` set to `true` so that it outlives this client.
pub open spec fn restore_props(l: LinkModel) -> PropsModel {
    seq![
        (property_key(LinkProperty::OutputNode), decimal(l.output_node as nat)),
        (property_key(LinkProperty::OutputPort), decimal(l.output_port as nat)),
        (property_key(LinkProperty::InputNode), decimal(l.input_node as nat)),
        (property_key(LinkProperty::InputPort), decimal(l.input_port as nat)),
        (key_object_linger(), "true"@),
    ]
}

fn property_u32(props: &Vec<(String, String)>, p: LinkProperty) -> (res: Result<u32, LinkError>)
    ensures
        res == property_value(props_model(props@), p),
{
    let key = p.key();
    match lookup_prop(props, &key) {
        None => Err(LinkError::MissingProperty(p)),
        Some(v) => match parse_u32(v.as_str()) {
            Some(n) => Ok(n),
            None => Err(LinkError::InvalidProperty(p)),
        },
    }
}

impl Link {
    /// Reads a registry object as a link.
    pub fn from_object(object: &ObjectInfo) -> (res: Result<Self, LinkError>)
        ensures
            match res {
                Ok(link) => link_from_object_spec(object@) == Ok::<LinkModel, LinkError>(link@),
                Err(e) => link_from_object_spec(object@) == Err::<LinkModel, LinkError>(e),
            },
    {
        if object.kind != ObjectKind::Link {
            return Err(LinkError::NotALink);
        }
        let props = match &object.props {
            Some(props) => props,
            None => return Err(LinkError::MissingProperties),
        };
        let output_node = property_u32(props, LinkProperty::OutputNode)?;
        let output_port = property_u32(props, LinkProperty::OutputPort)?;
        let input_node = property_u32(props, LinkProperty::InputNode)?;
        let input_port = property_u32(props, LinkProperty::InputPort)?;
        Ok(Link { id: object.id, output_node, output_port, input_node, input_port })
    }

    pub fn id(&self) -> (res: u32)
        ensures
            res == self@.id,
    {
        self.id
    }

    pub fn output_node(&self) -> (res: u32)
        ensures
            res == self@.output_node,
    {
        self.output_node
    }

    pub fn output_port(&self) -> (res: u32)
        ensures
            res == self@.output_port,
    {
        self.output_port
    }

    pub fn input_node(&self) -> (res: u32)
        ensures
            res == self@.input_node,
    {
        self.input_node
    }

    pub fn input_port(&self) -> (res: u32)
        ensures
            res == self@.input_port,
    {
        self.input_port
    }

    /// Whether port `id` is one of the link's two ports.
    pub fn contains_port(&self, id: u32) -> (res: bool)
        ensures
            res == (id == self@.output_port || id == self@.input_port),
    {
        id == self.output_port() || id == self.input_port()
    }

    /// The properties with which the link is created again after it was cut.
    pub fn restore_properties(&self) -> (res: Vec<(String, String)>)
        ensures
            props_model(res@) == restore_props(self@),
    {
        let mut props: Vec<(String, String)> = Vec::new();
        props.push((LinkProperty::OutputNode.key(), decimal_string(self.output_node)));
        props.push((LinkProperty::OutputPort.key(), decimal_string(self.output_port)));
        props.push((LinkProperty::InputNode.key(), decimal_string(self.input_node)));
        props.push((LinkProperty::InputPort.key(), decimal_string(self.input_port)));
        props.push((key_string("object.linger"), key_string("true")));
        assert(props_model(props@) =~= restore_props(self@));
        props
    }
}

/// A link property is read from the first entry under its key, wherever that
/// entry stands among the properties and whatever other entries there are.
pub proof fn law_property_by_key(props: PropsModel, p: LinkProperty, j: int)
    requires
        first_entry(props, property_key(p), j),
    ensures
        property_value(props, p) == match parse_u32_spec(props[j].1) {
            Some(n) => Ok::<u32, LinkError>(n),
            None => Err(LinkError::InvalidProperty(p)),
        },
{
    lemma_lookup_first(props, property_key(p), j);
}

/// A link property without an entry under its key is missing.
pub proof fn law_property_absent(props: PropsModel, p: LinkProperty)
    requires
        forall|k: int| 0 <= k < props.len() ==> #[trigger] props[k].0 != property_key(p),
    ensures
        property_value(props, p) == Err::<u32, LinkError>(LinkError::MissingProperty(p)),
{
    lemma_lookup_absent(props, property_key(p));
}

/// An object of the link type whose properties hold the four link keys, the
/// first entry under each one a `u32` in decimal, is read as the link between
/// those nodes and ports, wherever these entries stand and whatever other
/// entries there are.
pub proof fn law_link_read_by_keys(
    o: ObjectModel,
    props: PropsModel,
    at: (int, int, int, int),
    link: LinkModel,
)
    requires
        o.kind == ObjectKind::Link,
        o.props == Some(props),
        link.id == o.id,
        first_entry(props, property_key(LinkProperty::OutputNode), at.0),
        first_entry(props, property_key(LinkProperty::OutputPort), at.1),
        first_entry(props, property_key(LinkProperty::InputNode), at.2),
        first_entry(props, property_key(LinkProperty::InputPort), at.3),
        parse_u32_spec(props[at.0].1) == Some(link.output_node),
        parse_u32_spec(props[at.1].1) == Some(link.output_port),
        parse_u32_spec(props[at.2].1) == Some(link.input_node),
        parse_u32_spec(props[at.3].1) == Some(link.input_port),
    ensures
        link_from_object_spec(o) == Ok::<LinkModel, LinkError>(link),
{
    law_property_by_key(props, LinkProperty::OutputNode, at.0);
    law_property_by_key(props, LinkProperty::OutputPort, at.1);
    law_property_by_key(props, LinkProperty::InputNode, at.2);
    law_property_by_key(props, LinkProperty::InputPort, at.3);
}

/// A link created again from its restore properties is read back as a link
/// between the same nodes and ports (under whatever id the registry gives it).
pub proof fn law_restore_round_trip(l: LinkModel, id: u32)
    ensures
        link_from_object_spec(ObjectModel { id, kind: ObjectKind::Link, props: Some(restore_props(l)) })
            == Ok::<LinkModel, LinkError>(LinkModel { id, ..l }),
{
    reveal_strlit("link.output.node");
    reveal_strlit("link.output.port");
    reveal_strlit("link.input.node");
    reveal_strlit("link.input.port");
    law_decimal_round_trip(l.output_node);
    law_decimal_round_trip(l.output_port);
    law_decimal_round_trip(l.input_node);
    law_decimal_round_trip(l.input_port);
    let p = restore_props(l);
    let k0 = property_key(LinkProperty::OutputNode);
    let k1 = property_key(LinkProperty::OutputPort);
    let k2 = property_key(LinkProperty::InputNode);
    let k3 = property_key(LinkProperty::InputPort);
    assert(k0 != k1 && k0 != k2 && k0 != k3 && k1 != k2 && k1 != k3 && k2 != k3) by {
        assert(k0[12] != k1[12]);
        assert(k0[5] != k2[5]);
        assert(k0[5] != k3[5]);
        assert(k1[5] != k2[5]);
        assert(k1[5] != k3[5]);
        assert(k2[11] != k3[11]);
    }
    assert(lookup(p, k0) == Some(decimal(l.output_node as nat)));
    assert(p.drop_first()[0] == p[1]);
    assert(p[0].0 == k0);
    assert(lookup(p, k1) == lookup(p.drop_first(), k1));
    assert(lookup(p.drop_first(), k1) == Some(decimal(l.output_port as nat)));
    assert(lookup(p, k1) == Some(decimal(l.output_port as nat)));
    assert(p.drop_first().drop_first()[0] == p[2]);
    assert(lookup(p.drop_first(), k2) == lookup(p.drop_first().drop_first(), k2));
    assert(lookup(p, k2) == Some(decimal(l.input_node as nat)));
    assert(p.drop_first().drop_first().drop_first()[0] == p[3]);
    assert(lookup(p.drop_first().drop_first(), k3) == lookup(
        p.drop_first().drop_first().drop_first(),
        k3,
    ));
    assert(lookup(p.drop_first(), k3) == lookup(p.drop_first().drop_first(), k3));
    assert(lookup(p, k3) == Some(decimal(l.input_port as nat)));
}

} // verus!
