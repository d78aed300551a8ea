//! Box sizing of a node, aggregated from the sizes of its children and
//! overridden by the node's own attributes.

use crate::node::{
    restrict, restrict_attributes, Attribute, AttributeMask, AttributeModel, MaskModel, Node,
    NodeModel,
};
use crate::text::{
    chars_of, contains_char, parse_i32, parse_int, remove_char, str_eq, without_char,
};
use vstd::prelude::*;

verus! {

/// How one axis of a node is sized.
#[derive(Copy, Clone, Debug, PartialEq, Eq, Structural)]
pub enum SizeMode {
    /// No explicit size: content or the caller decides.
    Auto,
    /// A share of the available space, in percent.
    Percentage(i32),
    /// An absolute number of units.
    Manual(i32),
}

impl Default for SizeMode {
    fn default() -> (mode: SizeMode)
        ensures
            mode == SizeMode::Auto,
    {
        SizeMode::Auto
    }
}

/// The two axes of a box.
#[derive(Copy, Clone, Debug, PartialEq, Eq, Structural)]
pub enum Axis {
    Horizontal,
    Vertical,
}

/// The sizing state of a node: both axes, the padding of its four sides
/// (top, right, bottom, left) and the overflow threshold.
#[derive(Copy, Clone, Debug, PartialEq, Eq)]
pub struct Size {
    pub width: SizeMode,
    pub height: SizeMode,
    pub padding: (i32, i32, i32, i32),
    pub overflow: i32,
}

impl Default for Size {
    fn default() -> (size: Size)
        ensures
            size == default_size(),
    {
        Size { width: SizeMode::Auto, height: SizeMode::Auto, padding: (0, 0, 0, 0), overflow: 0 }
    }
}

/// A size attribute whose value is outside its grammar.
#[derive(Clone, Debug, PartialEq, Eq)]
pub struct InvalidAttributeValue {
    /// The node that carries the attribute.
    pub node: usize,
    /// The attribute's name.
    pub attribute: String,
    /// The value as it was declared.
    pub raw_value: String,
}

/// The size of a node that declares nothing and has no children.
pub open spec fn default_size() -> Size {
    Size { width: SizeMode::Auto, height: SizeMode::Auto, padding: (0, 0, 0, 0), overflow: 0 }
}

/// The mask of the sizing state.
pub open spec fn size_mask() -> MaskModel {
    MaskModel {
        names: set!["height"@, "overflow"@, "padding"@, "width"@],
        text: true,
        tag: true,
    }
}

/// The sizing mode that an attribute value declares: the keywords `stretch`
/// and `auto`, a percentage where the value holds a `%` (the number is what
/// is left without the `%` signs), else an absolute number.
pub open spec fn size_mode_of(value: Seq<char>) -> Option<SizeMode> {
    if value == "stretch"@ {
        Some(SizeMode::Percentage(100))
    } else if value == "auto"@ {
        Some(SizeMode::Auto)
    } else if value.contains('%') {
        match parse_int(without_char(value, '%')) {
            Some(percent) => Some(SizeMode::Percentage(percent)),
            None => None,
        }
    } else {
        match parse_int(value) {
            Some(units) => Some(SizeMode::Manual(units)),
            None => None,
        }
    }
}

/// Half of a total, rounded toward zero.
pub open spec fn half(total: int) -> int {
    if total >= 0 {
        total / 2
    } else {
        -((-total) / 2)
    }
}

/// Whether the attribute's value is within the grammar of its name. An
/// attribute that sizing does not read is always valid.
pub open spec fn size_attribute_valid(attribute: AttributeModel) -> bool {
    if attribute.name == "width"@ || attribute.name == "height"@ {
        size_mode_of(attribute.value) is Some
    } else if attribute.name == "padding"@ || attribute.name == "overflow"@ {
        parse_int(attribute.value) is Some
    } else {
        true
    }
}

/// The size after one valid attribute has been applied to it.
pub open spec fn apply_size_attribute(size: Size, attribute: AttributeModel) -> Size {
    if attribute.name == "width"@ {
        Size { width: size_mode_of(attribute.value).unwrap(), ..size }
    } else if attribute.name == "height"@ {
        Size { height: size_mode_of(attribute.value).unwrap(), ..size }
    } else if attribute.name == "padding"@ {
        let side = half(parse_int(attribute.value).unwrap() as int) as i32;
        Size { padding: (side, side, side, side), ..size }
    } else if attribute.name == "overflow"@ {
        Size { overflow: parse_int(attribute.value).unwrap(), ..size }
    } else {
        size
    }
}

/// The size after the attributes have been applied in declaration order.
pub open spec fn apply_size_attributes(size: Size, attributes: Seq<AttributeModel>) -> Size
    decreases attributes.len(),
{
    if attributes.len() == 0 {
        size
    } else {
        apply_size_attribute(
            apply_size_attributes(size, attributes.drop_last()),
            attributes.last(),
        )
    }
}

/// Whether every attribute of the sequence is valid for sizing.
pub open spec fn size_attributes_valid(attributes: Seq<AttributeModel>) -> bool {
    forall|i: int| 0 <= i < attributes.len() ==> size_attribute_valid(#[trigger] attributes[i])
}

/// The absolute size that a mode declares; zero where it declares none.
pub open spec fn manual_or_zero(mode: SizeMode) -> int {
    match mode {
        SizeMode::Manual(units) => units as int,
        _ => 0,
    }
}

/// The mode of a size along an axis.
pub open spec fn mode_along(size: Size, axis: Axis) -> SizeMode {
    match axis {
        Axis::Horizontal => size.width,
        Axis::Vertical => size.height,
    }
}

/// The largest absolute size among the children along an axis; zero where
/// there are no children.
pub open spec fn largest_manual(children: Seq<Size>, axis: Axis) -> int
    decreases children.len(),
{
    if children.len() == 0 {
        0
    } else if children.len() == 1 {
        manual_or_zero(mode_along(children[0], axis))
    } else {
        let front = largest_manual(children.drop_last(), axis);
        let last = manual_or_zero(mode_along(children.last(), axis));
        if front >= last {
            front
        } else {
            last
        }
    }
}

/// Whether the tag marks a node whose size comes from its text.
pub open spec fn is_text_container(tag: Option<Seq<char>>) -> bool {
    tag == Some("p"@)
}

/// The size of a node before its own attributes are read: fitted to the
/// largest child along each axis, unless it is a text container or has no
/// children.
pub open spec fn baseline_size(tag: Option<Seq<char>>, children: Seq<Size>) -> Size {
    if children.len() > 0 && !is_text_container(tag) {
        Size {
            width: SizeMode::Manual(largest_manual(children, Axis::Horizontal) as i32),
            height: SizeMode::Manual(largest_manual(children, Axis::Vertical) as i32),
            ..default_size()
        }
    } else {
        default_size()
    }
}

/// The size of a node, given the current sizes of its children. `None`
/// where one of its attributes is not valid.
pub open spec fn evaluate_size(node: NodeModel, children: Seq<Size>) -> Option<Size> {
    if size_attributes_valid(node.attributes) {
        Some(apply_size_attributes(baseline_size(node.tag, children), node.attributes))
    } else {
        None
    }
}

/// One recomputation: the size stored afterwards, and whether it differs
/// from the one stored before. An invalid attribute leaves the stored size
/// in place and reports no change.
pub open spec fn size_step(stored: Size, node: NodeModel, children: Seq<Size>) -> (Size, bool) {
    match evaluate_size(node, children) {
        Some(size) => (size, size != stored),
        None => (stored, false),
    }
}

/// The names of the attributes that sizing does not read, in declaration
/// order.
pub open spec fn unsupported_names(attributes: Seq<AttributeModel>) -> Seq<Seq<char>>
    decreases attributes.len(),
{
    if attributes.len() == 0 {
        Seq::empty()
    } else if size_mask().names.contains(attributes.last().name) {
        unsupported_names(attributes.drop_last())
    } else {
        unsupported_names(attributes.drop_last()).push(attributes.last().name)
    }
}

/// The characters of each string of a sequence.
pub open spec fn names_model(names: Seq<String>) -> Seq<Seq<char>> {
    Seq::new(names.len(), |i: int| names[i]@)
}

/// Whether `error` names the first invalid attribute of `node`.
pub open spec fn reports_first_invalid(node: NodeModel, error: InvalidAttributeValue) -> bool {
    exists|i: int|
        0 <= i < node.attributes.len() && !size_attribute_valid(#[trigger] node.attributes[i])
            && size_attributes_valid(node.attributes.take(i)) && error.node == node.id
            && error.attribute@ == node.attributes[i].name && error.raw_value@
            == node.attributes[i].value
}

/// The largest child is as large as every child and is one of them.
pub proof fn lemma_largest_manual_is_maximum(children: Seq<Size>, axis: Axis)
    requires
        children.len() > 0,
    ensures
        forall|i: int|
            0 <= i < children.len() ==> manual_or_zero(mode_along(#[trigger] children[i], axis))
                <= largest_manual(children, axis),
        exists|i: int|
            0 <= i < children.len() && manual_or_zero(mode_along(#[trigger] children[i], axis))
                == largest_manual(children, axis),
    decreases children.len(),
{
    if children.len() > 1 {
        let front = children.drop_last();
        lemma_largest_manual_is_maximum(front, axis);
        let k = choose|i: int|
            0 <= i < front.len() && manual_or_zero(mode_along(#[trigger] front[i], axis))
                == largest_manual(front, axis);
        assert(front[k] == children[k]);
        let last = children.len() - 1;
        assert(children[last] == children.last());
        assert forall|i: int| 0 <= i < children.len() implies manual_or_zero(
            mode_along(#[trigger] children[i], axis),
        ) <= largest_manual(children, axis) by {
            if i < front.len() {
                assert(front[i] == children[i]);
            }
        }
    } else {
        assert(children[0] == children[0]);
    }
}

/// The name of the attribute that declares the size along an axis.
pub open spec fn axis_attribute(axis: Axis) -> Seq<char> {
    match axis {
        Axis::Horizontal => "width"@,
        Axis::Vertical => "height"@,
    }
}

/// Sizing reads no attribute that its mask does not name: such an attribute
/// is always valid and leaves every size as it is.
pub proof fn lemma_size_reads_only_masked(size: Size, attribute: AttributeModel)
    requires
        !size_mask().names.contains(attribute.name),
    ensures
        size_attribute_valid(attribute),
        apply_size_attribute(size, attribute) == size,
{
}

/// Validity of a sequence with one more attribute at its end.
pub proof fn lemma_size_valid_push(attributes: Seq<AttributeModel>, last: AttributeModel)
    ensures
        size_attributes_valid(attributes.push(last)) == (size_attributes_valid(attributes)
            && size_attribute_valid(last)),
{
    let longer = attributes.push(last);
    if size_attributes_valid(longer) {
        assert(longer[attributes.len() as int] == last);
        assert forall|i: int| 0 <= i < attributes.len() implies size_attribute_valid(
            #[trigger] attributes[i],
        ) by {
            assert(longer[i] == attributes[i]);
        }
    }
    if size_attributes_valid(attributes) && size_attribute_valid(last) {
        assert forall|i: int| 0 <= i < longer.len() implies size_attribute_valid(
            #[trigger] longer[i],
        ) by {
            if i < attributes.len() {
                assert(longer[i] == attributes[i]);
            }
        }
    }
}

/// Restricting the attributes to the sizing mask changes neither their
/// validity nor the size that they give.
pub proof fn lemma_size_restrict_attributes(size: Size, attributes: Seq<AttributeModel>)
    ensures
        size_attributes_valid(restrict_attributes(attributes, size_mask().names))
            == size_attributes_valid(attributes),
        apply_size_attributes(size, restrict_attributes(attributes, size_mask().names))
            == apply_size_attributes(size, attributes),
    decreases attributes.len(),
{
    if attributes.len() > 0 {
        let front = attributes.drop_last();
        let last = attributes.last();
        let kept = restrict_attributes(front, size_mask().names);
        lemma_size_restrict_attributes(size, front);
        assert(front.push(last) =~= attributes);
        lemma_size_valid_push(front, last);
        if size_mask().names.contains(last.name) {
            lemma_size_valid_push(kept, last);
            assert(kept.push(last).drop_last() =~= kept);
        } else {
            lemma_size_reads_only_masked(apply_size_attributes(size, front), last);
        }
    }
}

/// Sizing depends on a node only through its view under the sizing mask.
pub proof fn lemma_size_masked_view(node: NodeModel, children: Seq<Size>)
    ensures
        evaluate_size(restrict(node, size_mask()), children) == evaluate_size(node, children),
{
    lemma_size_restrict_attributes(baseline_size(node.tag, children), node.attributes);
}

/// The last declaration of an axis decides its mode, whatever the children
/// and the declarations before it are.
pub proof fn lemma_last_declaration_wins(
    size: Size,
    attributes: Seq<AttributeModel>,
    axis: Axis,
    i: int,
)
    requires
        0 <= i < attributes.len(),
        attributes[i].name == axis_attribute(axis),
        forall|j: int|
            i < j < attributes.len() ==> (#[trigger] attributes[j]).name != axis_attribute(axis),
    ensures
        mode_along(apply_size_attributes(size, attributes), axis) == size_mode_of(
            attributes[i].value,
        ).unwrap(),
    decreases attributes.len(),
{
    reveal_strlit("width");
    reveal_strlit("height");
    let front = attributes.drop_last();
    let last = attributes.last();
    if i == attributes.len() - 1 {
        assert("width"@.len() != "height"@.len());
    } else {
        assert(attributes[attributes.len() - 1].name != axis_attribute(axis));
        assert(front[i] == attributes[i]);
        assert forall|j: int| i < j < front.len() implies (#[trigger] front[j]).name
            != axis_attribute(axis) by {
            assert(front[j] == attributes[j]);
        }
        lemma_last_declaration_wins(size, front, axis, i);
    }
}

/// An axis that no attribute declares keeps the mode it had.
pub proof fn lemma_undeclared_axis_keeps_mode(
    size: Size,
    attributes: Seq<AttributeModel>,
    axis: Axis,
)
    requires
        forall|j: int|
            0 <= j < attributes.len() ==> (#[trigger] attributes[j]).name != axis_attribute(axis),
    ensures
        mode_along(apply_size_attributes(size, attributes), axis) == mode_along(size, axis),
    decreases attributes.len(),
{
    if attributes.len() > 0 {
        let front = attributes.drop_last();
        assert(attributes[attributes.len() - 1].name != axis_attribute(axis));
        assert forall|j: int| 0 <= j < front.len() implies (#[trigger] front[j]).name
            != axis_attribute(axis) by {
            assert(front[j] == attributes[j]);
        }
        lemma_undeclared_axis_keeps_mode(size, front, axis);
    }
}

/// A node that declares an axis gets the mode of its last declaration of
/// that axis, whatever the sizes of its children are.
pub proof fn lemma_declared_axis_overrides_children(
    node: NodeModel,
    children: Seq<Size>,
    axis: Axis,
    i: int,
)
    requires
        size_attributes_valid(node.attributes),
        0 <= i < node.attributes.len(),
        node.attributes[i].name == axis_attribute(axis),
        forall|j: int|
            i < j < node.attributes.len() ==> (#[trigger] node.attributes[j]).name
                != axis_attribute(axis),
    ensures
        evaluate_size(node, children) is Some,
        size_mode_of(node.attributes[i].value) is Some,
        Some(mode_along(evaluate_size(node, children).unwrap(), axis)) == size_mode_of(
            node.attributes[i].value,
        ),
{
    lemma_last_declaration_wins(baseline_size(node.tag, children), node.attributes, axis, i);
    reveal_strlit("width");
    reveal_strlit("height");
    assert("width"@.len() != "height"@.len());
    assert(size_attribute_valid(node.attributes[i]));
}

/// A node with children that is no text container and declares nothing for
/// an axis is as large along it as its largest child.
pub proof fn lemma_undeclared_axis_fits_children(node: NodeModel, children: Seq<Size>, axis: Axis)
    requires
        size_attributes_valid(node.attributes),
        children.len() > 0,
        !is_text_container(node.tag),
        forall|j: int|
            0 <= j < node.attributes.len() ==> (#[trigger] node.attributes[j]).name
                != axis_attribute(axis),
    ensures
        evaluate_size(node, children) is Some,
        mode_along(evaluate_size(node, children).unwrap(), axis) == SizeMode::Manual(
            largest_manual(children, axis) as i32,
        ),
{
    lemma_undeclared_axis_keeps_mode(baseline_size(node.tag, children), node.attributes, axis);
}

/// The largest child along an axis is within the range of its sizes.
pub proof fn lemma_largest_manual_in_range(children: Seq<Size>, axis: Axis)
    ensures
        i32::MIN <= largest_manual(children, axis) <= i32::MAX,
    decreases children.len(),
{
    if children.len() > 1 {
        lemma_largest_manual_in_range(children.drop_last(), axis);
    }
}

/// Reads the sizing mode that an attribute value declares.
pub fn parse_size_mode(value: &str) -> (mode: Option<SizeMode>)
    ensures
        mode == size_mode_of(value@),
{
    if str_eq(value, "stretch") {
        Some(SizeMode::Percentage(100))
    } else if str_eq(value, "auto") {
        Some(SizeMode::Auto)
    } else {
        let chars = chars_of(value);
        if contains_char(&chars, '%') {
            match parse_i32(&remove_char(&chars, '%')) {
                Some(percent) => Some(SizeMode::Percentage(percent)),
                None => None,
            }
        } else {
            match parse_i32(&chars) {
                Some(units) => Some(SizeMode::Manual(units)),
                None => None,
            }
        }
    }
}

/// Splits a total padding over the sides: each side gets half of it,
/// rounded toward zero.
pub fn padding_side(total: i32) -> (side: i32)
    ensures
        side == half(total as int),
{
    if total >= 0 {
        total / 2
    } else {
        let magnitude: i64 = -(total as i64);
        (-(magnitude / 2)) as i32
    }
}

fn manual_along(size: &Size, axis: Axis) -> (units: i32)
    ensures
        units == manual_or_zero(mode_along(*size, axis)),
{
    let mode = match axis {
        Axis::Horizontal => size.width,
        Axis::Vertical => size.height,
    };
    match mode {
        SizeMode::Manual(units) => units,
        _ => 0,
    }
}

/// The largest absolute size among the children along an axis.
pub fn largest_child(children: &Vec<Size>, axis: Axis) -> (largest: i32)
    ensures
        largest == largest_manual(children@, axis),
{
    if children.len() == 0 {
        return 0;
    }
    let mut largest: i32 = manual_along(&children[0], axis);
    let mut i: usize = 1;
    proof {
        assert(children@.take(1).len() == 1);
        assert(children@.take(1)[0] == children@[0]);
    }
    while i < children.len()
        invariant
            1 <= i <= children.len(),
            largest == largest_manual(children@.take(i as int), axis),
        decreases children.len() - i,
    {
        let next: i32 = manual_along(&children[i], axis);
        proof {
            let longer = children@.take(i + 1);
            assert(longer.drop_last() =~= children@.take(i as int));
            assert(longer.last() == children@[i as int]);
        }
        if next > largest {
            largest = next;
        }
        i += 1;
    }
    proof {
        assert(children@.take(children.len() as int) =~= children@);
    }
    largest
}

fn is_text_tag(tag: &Option<String>) -> (text: bool)
    ensures
        text == is_text_container(crate::node::text_model(*tag)),
{
    match tag {
        Some(name) => str_eq(name.as_str(), "p"),
        None => false,
    }
}

/// Applies one attribute to a size: `None` where its value is not valid.
pub fn apply_attribute(size: Size, attribute: &Attribute) -> (applied: Option<Size>)
    ensures
        applied is Some <==> size_attribute_valid(attribute@),
        applied is Some ==> applied == Some(apply_size_attribute(size, attribute@)),
{
    let name = attribute.name.as_str();
    let value = attribute.value.as_str();
    if str_eq(name, "width") {
        match parse_size_mode(value) {
            Some(mode) => Some(Size { width: mode, ..size }),
            None => None,
        }
    } else if str_eq(name, "height") {
        match parse_size_mode(value) {
            Some(mode) => Some(Size { height: mode, ..size }),
            None => None,
        }
    } else if str_eq(name, "padding") {
        match parse_i32(&chars_of(value)) {
            Some(total) => {
                let side = padding_side(total);
                Some(Size { padding: (side, side, side, side), ..size })
            },
            None => None,
        }
    } else if str_eq(name, "overflow") {
        match parse_i32(&chars_of(value)) {
            Some(threshold) => Some(Size { overflow: threshold, ..size }),
            None => None,
        }
    } else {
        Some(size)
    }
}

impl Size {
    /// Whether two sizes agree in every field.
    pub fn same_as(&self, other: &Size) -> (same: bool)
        ensures
            same == (*self == *other),
    {
        self.width == other.width && self.height == other.height && self.padding.0
            == other.padding.0 && self.padding.1 == other.padding.1 && self.padding.2
            == other.padding.2 && self.padding.3 == other.padding.3 && self.overflow
            == other.overflow
    }

    /// The inputs that sizing depends on: its four attributes, the text and
    /// the tag.
    pub fn node_mask() -> (mask: AttributeMask)
        ensures
            mask@ == size_mask(),
    {
        let mask = AttributeMask {
            attributes: vec!["height", "overflow", "padding", "width"],
            text: true,
            tag: true,
        };
        proof {
            let names = mask.attributes@;
            assert(names[0]@ == "height"@ && names[1]@ == "overflow"@ && names[2]@ == "padding"@
                && names[3]@ == "width"@);
            assert(mask@.names =~= size_mask().names);
        }
        mask
    }

    /// The names of the attributes of `node` that sizing does not read, for
    /// a caller that wants to tell its user about them. They never make a
    /// recomputation fail.
    pub fn unsupported_attributes(node: &Node) -> (names: Vec<String>)
        ensures
            names_model(names@) == unsupported_names(node@.attributes),
    {
        let mask = Size::node_mask();
        let mut names: Vec<String> = Vec::new();
        let ghost attributes = node@.attributes;
        let mut i: usize = 0;
        while i < node.attributes.len()
            invariant
                i <= node.attributes.len(),
                attributes == node@.attributes,
                attributes.len() == node.attributes.len(),
                mask@ == size_mask(),
                names_model(names@) == unsupported_names(attributes.take(i as int)),
            decreases node.attributes.len() - i,
        {
            let attribute = &node.attributes[i];
            let ghost before = names_model(names@);
            proof {
                let longer = attributes.take(i + 1);
                assert(longer.drop_last() =~= attributes.take(i as int));
                assert(longer.last() == attribute@);
            }
            if !mask.contains_attribute(attribute.name.as_str()) {
                names.push(attribute.name.clone());
                proof {
                    assert(names_model(names@) =~= before.push(attribute@.name));
                }
            }
            i += 1;
        }
        proof {
            assert(attributes.take(node.attributes.len() as int) =~= attributes);
        }
        names
    }

    /// Recomputes the size of `node` from the current sizes of its children
    /// and its own attributes, stores it, and tells whether it changed. On an
    /// invalid attribute the stored size stays and the first such attribute
    /// is reported; the caller takes that as no change.
    pub fn reduce(&mut self, node: &Node, children: &Vec<Size>) -> (outcome: Result<
        bool,
        InvalidAttributeValue,
    >)
        ensures
            *final(self) == size_step(*old(self), node@, children@).0,
            match outcome {
                Ok(changed) => evaluate_size(node@, children@) is Some && changed == size_step(
                    *old(self),
                    node@,
                    children@,
                ).1,
                Err(error) => evaluate_size(node@, children@) is None && reports_first_invalid(
                    node@,
                    error,
                ),
            },
    {
        let mut size = Size::default();
        if children.len() > 0 && !is_text_tag(&node.tag) {
            size.width = SizeMode::Manual(largest_child(children, Axis::Horizontal));
            size.height = SizeMode::Manual(largest_child(children, Axis::Vertical));
        }
        let ghost attributes = node@.attributes;
        let ghost baseline = size;
        let mut i: usize = 0;
        while i < node.attributes.len()
            invariant
                i <= node.attributes.len(),
                attributes == node@.attributes,
                attributes.len() == node.attributes.len(),
                size_attributes_valid(attributes.take(i as int)),
                size == apply_size_attributes(baseline, attributes.take(i as int)),
                *self == *old(self),
            decreases node.attributes.len() - i,
        {
            let attribute = &node.attributes[i];
            proof {
                let longer = attributes.take(i + 1);
                assert(longer.drop_last() =~= attributes.take(i as int));
                assert(longer.last() == attribute@);
                assert(attributes[i as int] == attribute@);
            }
            match apply_attribute(size, attribute) {
                Some(applied) => {
                    size = applied;
                },
                None => {
                    return Err(
                        InvalidAttributeValue {
                            node: node.id,
                            attribute: attribute.name.clone(),
                            raw_value: attribute.value.clone(),
                        },
                    );
                },
            }
            proof {
                let longer = attributes.take(i + 1);
                assert forall|j: int| 0 <= j < longer.len() implies size_attribute_valid(
                    #[trigger] longer[j],
                ) by {
                    if j < i {
                        assert(longer[j] == attributes.take(i as int)[j]);
                    }
                }
            }
            i += 1;
        }
        proof {
            assert(attributes.take(node.attributes.len() as int) =~= attributes);
        }
        let changed = !size.same_as(self);
        *self = size;
        Ok(changed)
    }
}

} // verus!
