//! What the evaluators read of a node, and the masks that say which part of
//! it each of them depends on.

use crate::text::str_eq;
use vstd::prelude::*;

verus! {

/// One declared attribute of a node.
#[derive(Clone, Debug, PartialEq, Eq)]
pub struct Attribute {
    pub name: String,
    pub value: String,
}

/// The mathematical content of an [`Attribute`].
pub struct AttributeModel {
    pub name: Seq<char>,
    pub value: Seq<char>,
}

impl View for Attribute {
    type V = AttributeModel;

    open spec fn view(&self) -> AttributeModel {
        AttributeModel { name: self.name@, value: self.value@ }
    }
}

/// A node as the evaluators see it: its identity, tag, text and attributes
/// in declaration order.
#[derive(Clone, Debug, PartialEq, Eq)]
pub struct Node {
    pub id: usize,
    pub tag: Option<String>,
    pub text: Option<String>,
    pub attributes: Vec<Attribute>,
}

/// The mathematical content of a [`Node`].
pub struct NodeModel {
    pub id: usize,
    pub tag: Option<Seq<char>>,
    pub text: Option<Seq<char>>,
    pub attributes: Seq<AttributeModel>,
}

/// The characters of an optional string.
pub open spec fn text_model(text: Option<String>) -> Option<Seq<char>> {
    match text {
        Some(s) => Some(s@),
        None => None,
    }
}

impl View for Node {
    type V = NodeModel;

    open spec fn view(&self) -> NodeModel {
        NodeModel {
            id: self.id,
            tag: text_model(self.tag),
            text: text_model(self.text),
            attributes: Seq::new(self.attributes@.len(), |i: int| self.attributes@[i]@),
        }
    }
}

/// The inputs that one kind of derived state depends on: a set of attribute
/// names, and whether it reads the node's text and its tag.
#[derive(Clone, Debug, PartialEq, Eq)]
pub struct AttributeMask {
    pub attributes: Vec<&'static str>,
    pub text: bool,
    pub tag: bool,
}

/// The mathematical content of an [`AttributeMask`].
pub struct MaskModel {
    pub names: Set<Seq<char>>,
    pub text: bool,
    pub tag: bool,
}

impl View for AttributeMask {
    type V = MaskModel;

    open spec fn view(&self) -> MaskModel {
        MaskModel {
            names: Set::new(
                |name: Seq<char>|
                    exists|i: int|
                        0 <= i < self.attributes@.len() && (#[trigger] self.attributes@[i])@
                            == name,
            ),
            text: self.text,
            tag: self.tag,
        }
    }
}

/// The attributes whose names are in `names`, in their order.
pub open spec fn restrict_attributes(
    attributes: Seq<AttributeModel>,
    names: Set<Seq<char>>,
) -> Seq<AttributeModel>
    decreases attributes.len(),
{
    if attributes.len() == 0 {
        attributes
    } else if names.contains(attributes.last().name) {
        restrict_attributes(attributes.drop_last(), names).push(attributes.last())
    } else {
        restrict_attributes(attributes.drop_last(), names)
    }
}

/// What is left of a node under a mask: the attributes that the mask names,
/// the tag and the text only where the mask admits them.
pub open spec fn restrict(node: NodeModel, mask: MaskModel) -> NodeModel {
    NodeModel {
        id: node.id,
        tag: if mask.tag {
            node.tag
        } else {
            None
        },
        text: if mask.text {
            node.text
        } else {
            None
        },
        attributes: restrict_attributes(node.attributes, mask.names),
    }
}

/// Whether every attribute of the sequence has its name in `names`.
pub open spec fn within(attributes: Seq<AttributeModel>, names: Set<Seq<char>>) -> bool {
    forall|i: int| 0 <= i < attributes.len() ==> names.contains((#[trigger] attributes[i]).name)
}

/// A restricted sequence holds only names of the mask.
pub proof fn lemma_restrict_within(attributes: Seq<AttributeModel>, names: Set<Seq<char>>)
    ensures
        within(restrict_attributes(attributes, names), names),
    decreases attributes.len(),
{
    if attributes.len() > 0 {
        lemma_restrict_within(attributes.drop_last(), names);
    }
}

/// Restricting changes nothing where every name is in the mask already.
pub proof fn lemma_restrict_identity(attributes: Seq<AttributeModel>, names: Set<Seq<char>>)
    requires
        within(attributes, names),
    ensures
        restrict_attributes(attributes, names) == attributes,
    decreases attributes.len(),
{
    if attributes.len() > 0 {
        let front = attributes.drop_last();
        assert forall|i: int| 0 <= i < front.len() implies names.contains(
            (#[trigger] front[i]).name,
        ) by {
            assert(front[i] == attributes[i]);
        }
        lemma_restrict_identity(front, names);
        assert(names.contains(attributes[attributes.len() - 1].name));
        assert(front.push(attributes.last()) =~= attributes);
    }
}

fn clone_text(text: &Option<String>) -> (copy: Option<String>)
    ensures
        text_model(copy) == text_model(*text),
{
    match text {
        Some(s) => Some(s.clone()),
        None => None,
    }
}

impl AttributeMask {
    /// Whether the mask names the attribute `name`.
    pub fn contains_attribute(&self, name: &str) -> (found: bool)
        ensures
            found == self@.names.contains(name@),
    {
        let mut i: usize = 0;
        while i < self.attributes.len()
            invariant
                i <= self.attributes.len(),
                forall|j: int| 0 <= j < i ==> (#[trigger] self.attributes@[j])@ != name@,
            decreases self.attributes.len() - i,
        {
            if str_eq(self.attributes[i], name) {
                return true;
            }
            i += 1;
        }
        false
    }
}

impl Node {
    /// The view of this node under `mask`.
    pub fn restrict(&self, mask: &AttributeMask) -> (masked: Node)
        ensures
            masked@ == restrict(self@, mask@),
            within(masked@.attributes, mask@.names),
    {
        let mut kept: Vec<Attribute> = Vec::new();
        let mut i: usize = 0;
        let ghost all = self@.attributes;
        let ghost mut kept_model = Seq::<AttributeModel>::empty();
        while i < self.attributes.len()
            invariant
                i <= self.attributes.len(),
                all == self@.attributes,
                all.len() == self.attributes.len(),
                kept_model == restrict_attributes(all.take(i as int), mask@.names),
                kept_model.len() == kept@.len(),
                forall|j: int| 0 <= j < kept@.len() ==> (#[trigger] kept@[j])@ == kept_model[j],
            decreases self.attributes.len() - i,
        {
            let attribute = &self.attributes[i];
            proof {
                let longer = all.take(i + 1);
                assert(longer.drop_last() =~= all.take(i as int));
                assert(longer.last() == attribute@);
            }
            if mask.contains_attribute(attribute.name.as_str()) {
                kept.push(Attribute { name: attribute.name.clone(), value: attribute.value.clone() });
                proof {
                    kept_model = kept_model.push(attribute@);
                }
            }
            i += 1;
        }
        let tag = if mask.tag {
            clone_text(&self.tag)
        } else {
            None
        };
        let text = if mask.text {
            clone_text(&self.text)
        } else {
            None
        };
        let masked = Node { id: self.id, tag, text, attributes: kept };
        proof {
            assert(all.take(self.attributes.len() as int) =~= all);
            assert(masked@.attributes =~= kept_model);
            lemma_restrict_within(all, mask@.names);
        }
        masked
    }
}

} // verus!
