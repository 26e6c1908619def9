//! PipeWire registry objects, as plain values: an id, a type and a property
//! dictionary.

use vstd::prelude::*;

verus! {

broadcast use vstd::string::group_string_axioms;

/// The types of registry objects that the rules tell apart.
#[derive(Copy, Clone, Debug, PartialEq, Eq, Structural)]
pub enum ObjectKind {
    Link,
    Port,
    Other,
}

/// A registry object: its id, its type and, if it has them, its properties
/// (in the dictionary's order).
#[derive(Debug)]
pub struct ObjectInfo {
    pub id: u32,
    pub kind: ObjectKind,
    pub props: Option<Vec<(String, String)>>,
}

/// Property dictionaries as sequences of key/value texts.
pub type PropsModel = Seq<(Seq<char>, Seq<char>)>;

/// The model of a registry object.
pub struct ObjectModel {
    pub id: u32,
    pub kind: ObjectKind,
    pub props: Option<PropsModel>,
}

pub open spec fn props_model(props: Seq<(String, String)>) -> PropsModel {
    props.map_values(|p: (String, String)| (p.0@, p.1@))
}

impl View for ObjectInfo {
    type V = ObjectModel;

    open spec fn view(&self) -> ObjectModel {
        ObjectModel {
            id: self.id,
            kind: self.kind,
            props: match &self.props {
                Some(p) => Some(props_model(p@)),
                None => None,
            },
        }
    }
}

/// The value of the first entry of `props` whose key is `key`.
pub open spec fn lookup(props: PropsModel, key: Seq<char>) -> Option<Seq<char>>
    decreases props.len(),
{
    if props.len() == 0 {
        None
    } else if props[0].0 == key {
        Some(props[0].1)
    } else {
        lookup(props.drop_first(), key)
    }
}

/// Whether entry `j` of `props` is the first one under `key`.
pub open spec fn first_entry(props: PropsModel, key: Seq<char>, j: int) -> bool {
    &&& 0 <= j < props.len()
    &&& props[j].0 == key
    &&& forall|k: int| 0 <= k < j ==> #[trigger] props[k].0 != key
}

/// The lookup finds the first entry under `key`, wherever it stands.
pub proof fn lemma_lookup_first(props: PropsModel, key: Seq<char>, j: int)
    requires
        first_entry(props, key, j),
    ensures
        lookup(props, key) == Some(props[j].1),
    decreases j,
{
    if j > 0 {
        assert(props[0].0 != key);
        let rest = props.drop_first();
        assert forall|k: int| 0 <= k < j - 1 implies #[trigger] rest[k].0 != key by {
            assert(rest[k] == props[k + 1]);
        }
        assert(rest[j - 1] == props[j]);
        lemma_lookup_first(rest, key, j - 1);
    }
}

/// Without an entry under `key`, the lookup finds nothing.
pub proof fn lemma_lookup_absent(props: PropsModel, key: Seq<char>)
    requires
        forall|k: int| 0 <= k < props.len() ==> #[trigger] props[k].0 != key,
    ensures
        lookup(props, key) is None,
    decreases props.len(),
{
    if props.len() > 0 {
        assert(props[0].0 != key);
        let rest = props.drop_first();
        assert forall|k: int| 0 <= k < rest.len() implies #[trigger] rest[k].0 != key by {
            assert(rest[k] == props[k + 1]);
        }
        lemma_lookup_absent(rest, key);
    }
}

pub open spec fn key_app_name() -> Seq<char> {
    "application.name"@
}

pub open spec fn key_app_id() -> Seq<char> {
    "application.id"@
}

pub open spec fn key_node_description() -> Seq<char> {
    "node.description"@
}

pub open spec fn key_node_name() -> Seq<char> {
    "node.name"@
}

/// The name of a node: its application name, else its application id, else
/// its description, else its node name, else empty.
pub open spec fn label_spec(props: Option<PropsModel>) -> Seq<char> {
    match props {
        None => seq![],
        Some(p) => match lookup(p, key_app_name()) {
            Some(v) => v,
            None => match lookup(p, key_app_id()) {
                Some(v) => v,
                None => match lookup(p, key_node_description()) {
                    Some(v) => v,
                    None => match lookup(p, key_node_name()) {
                        Some(v) => v,
                        None => seq![],
                    },
                },
            },
        },
    }
}

/// A property key, as a string.
pub(crate) fn key_string(key: &str) -> (res: String)
    ensures
        res@ == key@,
{
    key.to_string()
}

/// The value of the first entry of `props` whose key is `key`, as PipeWire's
/// dictionary lookup finds it.
pub fn lookup_prop<'a>(props: &'a Vec<(String, String)>, key: &String) -> (res: Option<&'a String>)
    ensures
        match res {
            Some(v) => lookup(props_model(props@), key@) == Some(v@),
            None => lookup(props_model(props@), key@) is None,
        },
{
    let ghost p = props_model(props@);
    let mut i: usize = 0;
    assert(p.subrange(0, p.len() as int) =~= p);
    while i < props.len()
        invariant
            p == props_model(props@),
            i <= props@.len(),
            lookup(p, key@) == lookup(p.subrange(i as int, p.len() as int), key@),
        decreases props@.len() - i,
    {
        let ghost rest = p.subrange(i as int, p.len() as int);
        assert(rest[0] == p[i as int]);
        if props[i].0 == *key {
            return Some(&props[i].1);
        }
        assert(rest.drop_first() =~= p.subrange(i + 1, p.len() as int));
        i = i + 1;
    }
    assert(p.subrange(i as int, p.len() as int) =~= Seq::<(Seq<char>, Seq<char>)>::empty());
    None
}

/// The name under which a node is shown and matched (empty when it has none).
pub fn label(object: &ObjectInfo) -> (res: String)
    ensures
        res@ == label_spec(object@.props),
{
    match &object.props {
        None => String::new(),
        Some(props) => {
            let keys = [
                key_string("application.name"),
                key_string("application.id"),
                key_string("node.description"),
                key_string("node.name"),
            ];
            if let Some(v) = lookup_prop(props, &keys[0]) {
                return v.clone();
            }
            if let Some(v) = lookup_prop(props, &keys[1]) {
                return v.clone();
            }
            if let Some(v) = lookup_prop(props, &keys[2]) {
                return v.clone();
            }
            if let Some(v) = lookup_prop(props, &keys[3]) {
                return v.clone();
            }
            String::new()
        },
    }
}

} // verus!
