//! Paint style of a node, read from its own attributes alone.

use crate::node::{
    restrict, restrict_attributes, within, AttributeMask, AttributeModel, MaskModel, Node,
    NodeModel,
};
use crate::text::str_eq;
use vstd::prelude::*;

verus! {

/// A colour with its alpha channel, eight bits each.
#[derive(Copy, Clone, Debug, PartialEq, Eq, Structural)]
pub struct Color {
    pub alpha: u8,
    pub red: u8,
    pub green: u8,
    pub blue: u8,
}

/// The paint style of a node.
#[derive(Copy, Clone, Debug, PartialEq, Eq, Structural)]
pub struct Style {
    pub background: Color,
}

/// The colour that paints nothing.
pub open spec fn transparent() -> Color {
    Color { alpha: 0, red: 0, green: 0, blue: 0 }
}

/// An opaque colour.
pub open spec fn opaque(red: u8, green: u8, blue: u8) -> Color {
    Color { alpha: 255, red, green, blue }
}

/// The palette: the colour that a name stands for, `None` for a name that is
/// not in it.
pub open spec fn named_color(name: Seq<char>) -> Option<Color> {
    if name == "red"@ {
        Some(opaque(255, 0, 0))
    } else if name == "green"@ {
        Some(opaque(0, 255, 0))
    } else if name == "blue"@ {
        Some(opaque(0, 0, 255))
    } else if name == "yellow"@ {
        Some(opaque(255, 255, 0))
    } else if name == "black"@ {
        Some(opaque(0, 0, 0))
    } else if name == "gray"@ {
        Some(opaque(136, 136, 136))
    } else {
        None
    }
}

/// The style after one attribute: a `background` with a name of the palette
/// replaces the background, anything else leaves the style as it is.
pub open spec fn apply_style_attribute(style: Style, attribute: AttributeModel) -> Style {
    if attribute.name == "background"@ {
        match named_color(attribute.value) {
            Some(color) => Style { background: color },
            None => style,
        }
    } else {
        style
    }
}

/// The style after the attributes have been applied in declaration order.
pub open spec fn apply_style_attributes(style: Style, attributes: Seq<AttributeModel>) -> Style
    decreases attributes.len(),
{
    if attributes.len() == 0 {
        style
    } else {
        apply_style_attribute(
            apply_style_attributes(style, attributes.drop_last()),
            attributes.last(),
        )
    }
}

/// The style of a node that declares nothing.
pub open spec fn default_style() -> Style {
    Style { background: transparent() }
}

/// The style of a node: its attributes applied to the transparent default.
pub open spec fn evaluate_style(node: NodeModel) -> Style {
    apply_style_attributes(default_style(), node.attributes)
}

/// One recomputation: the style stored afterwards, and whether it differs
/// from the one stored before.
pub open spec fn style_step(stored: Style, node: NodeModel) -> (Style, bool) {
    (evaluate_style(node), evaluate_style(node) != stored)
}

/// The mask of the style state.
pub open spec fn style_mask() -> MaskModel {
    MaskModel { names: set!["background"@], text: true, tag: false }
}

/// The style reads no attribute that its mask does not name.
pub proof fn lemma_style_reads_only_masked(style: Style, attribute: AttributeModel)
    requires
        !style_mask().names.contains(attribute.name),
    ensures
        apply_style_attribute(style, attribute) == style,
{
}

/// A background whose name is not in the palette leaves the style as it
/// was before that attribute.
pub proof fn lemma_unknown_color_ignored(
    style: Style,
    attributes: Seq<AttributeModel>,
    last: AttributeModel,
)
    requires
        named_color(last.value) is None,
    ensures
        apply_style_attributes(style, attributes.push(last)) == apply_style_attributes(
            style,
            attributes,
        ),
{
    assert(attributes.push(last).drop_last() =~= attributes);
}

/// Restricting the attributes to the style mask does not change the style
/// that they give.
pub proof fn lemma_style_restrict_attributes(style: Style, attributes: Seq<AttributeModel>)
    ensures
        apply_style_attributes(style, restrict_attributes(attributes, style_mask().names))
            == apply_style_attributes(style, attributes),
    decreases attributes.len(),
{
    if attributes.len() > 0 {
        let front = attributes.drop_last();
        let last = attributes.last();
        let kept = restrict_attributes(front, style_mask().names);
        lemma_style_restrict_attributes(style, front);
        if style_mask().names.contains(last.name) {
            assert(kept.push(last).drop_last() =~= kept);
        }
    }
}

/// The style depends on a node only through its view under the style mask.
pub proof fn lemma_style_masked_view(node: NodeModel)
    ensures
        evaluate_style(restrict(node, style_mask())) == evaluate_style(node),
{
    lemma_style_restrict_attributes(default_style(), node.attributes);
}

impl Default for Color {
    fn default() -> (color: Color)
        ensures
            color == transparent(),
    {
        Color { alpha: 0, red: 0, green: 0, blue: 0 }
    }
}

impl Default for Style {
    fn default() -> (style: Style)
        ensures
            style == default_style(),
    {
        Style { background: Color { alpha: 0, red: 0, green: 0, blue: 0 } }
    }
}

impl Color {
    /// The colour with the given channels.
    pub fn from_argb(alpha: u8, red: u8, green: u8, blue: u8) -> (color: Color)
        ensures
            color == (Color { alpha, red, green, blue }),
    {
        Color { alpha, red, green, blue }
    }
}

/// Looks a colour name up in the palette.
pub fn color_str(color: &str) -> (found: Option<Color>)
    ensures
        found == named_color(color@),
{
    if str_eq(color, "red") {
        Some(Color::from_argb(255, 255, 0, 0))
    } else if str_eq(color, "green") {
        Some(Color::from_argb(255, 0, 255, 0))
    } else if str_eq(color, "blue") {
        Some(Color::from_argb(255, 0, 0, 255))
    } else if str_eq(color, "yellow") {
        Some(Color::from_argb(255, 255, 255, 0))
    } else if str_eq(color, "black") {
        Some(Color::from_argb(255, 0, 0, 0))
    } else if str_eq(color, "gray") {
        Some(Color::from_argb(255, 136, 136, 136))
    } else {
        None
    }
}

impl Style {
    /// The inputs that the style depends on: the `background` attribute and
    /// the text.
    pub fn node_mask() -> (mask: AttributeMask)
        ensures
            mask@ == style_mask(),
    {
        let mask = AttributeMask { attributes: vec!["background"], text: true, tag: false };
        proof {
            assert(mask.attributes@[0]@ == "background"@);
            assert(mask@.names =~= style_mask().names);
        }
        mask
    }

    /// Recomputes the style of `node` from its attributes, stores it, and
    /// tells whether it changed. The node is a view under the style's mask:
    /// it holds no attribute that the mask does not name.
    pub fn reduce(&mut self, node: &Node) -> (changed: bool)
        requires
            within(node@.attributes, style_mask().names),
        ensures
            *final(self) == style_step(*old(self), node@).0,
            changed == style_step(*old(self), node@).1,
    {
        let mut style = Style::default();
        let ghost attributes = node@.attributes;
        let mut i: usize = 0;
        while i < node.attributes.len()
            invariant
                i <= node.attributes.len(),
                attributes == node@.attributes,
                attributes.len() == node.attributes.len(),
                within(attributes, style_mask().names),
                style == apply_style_attributes(default_style(), attributes.take(i as int)),
                *self == *old(self),
            decreases node.attributes.len() - i,
        {
            let attribute = &node.attributes[i];
            proof {
                let longer = attributes.take(i + 1);
                assert(longer.drop_last() =~= attributes.take(i as int));
                assert(longer.last() == attribute@);
                assert(style_mask().names.contains(attributes[i as int].name));
            }
            match color_str(attribute.value.as_str()) {
                Some(color) => {
                    style.background = color;
                },
                None => {},
            }
            i += 1;
        }
        proof {
            assert(attributes.take(node.attributes.len() as int) =~= attributes);
        }
        let changed = style != *self;
        *self = style;
        changed
    }
}

} // verus!
