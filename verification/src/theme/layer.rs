//! The layers a scene is made of.
use vstd::prelude::*;

use crate::layout::{LogicalPosition, LogicalRect};
use crate::theme::binding::TextBinding;

verus! {

/// Identifier of a layer within its scene; 0 asks the scene to pick one.
pub type LayerId = u64;

/// How an image fills its rectangle.
#[derive(Debug, Clone, Copy, PartialEq, Eq, Hash, Structural)]
pub enum ImageFit {
    Stretch,
    Contain,
    Cover,
}

/// A layer that paints the whole display in one colour.
#[derive(Debug, Clone, Copy)]
pub struct BackgroundLayer {
    pub id: LayerId,
    pub visible: bool,
    pub color: [u8; 4],
}

/// A layer that draws an image file into a rectangle.
#[derive(Debug)]
pub struct ImageLayer {
    pub id: LayerId,
    pub visible: bool,
    pub source: String,
    pub rect: LogicalRect,
    pub fit: ImageFit,
    pub opacity: u8,
}

/// A layer that draws a line of text.
///
/// `text` is what is shown without a binding, and the fallback when the
/// bound data is unavailable. The font size is a single-precision number
/// carried as its bit pattern.
#[derive(Debug)]
pub struct TextLayer {
    pub id: LayerId,
    pub visible: bool,
    pub text: String,
    pub binding: Option<TextBinding>,
    pub position: LogicalPosition,
    pub font_size_bits: u32,
    pub color: [u8; 4],
}

/// One layer of a scene.
#[derive(Debug)]
pub enum Layer {
    Background(BackgroundLayer),
    Image(ImageLayer),
    Text(TextLayer),
}

impl Clone for ImageLayer {
    fn clone(&self) -> (copy: ImageLayer)
        ensures
            copy == *self,
    {
        ImageLayer {
            id: self.id,
            visible: self.visible,
            source: self.source.clone(),
            rect: self.rect,
            fit: self.fit,
            opacity: self.opacity,
        }
    }
}

impl Clone for TextLayer {
    fn clone(&self) -> (copy: TextLayer)
        ensures
            copy == *self,
    {
        let binding = match &self.binding {
            Some(binding) => Some(binding.clone()),
            None => None,
        };
        TextLayer {
            id: self.id,
            visible: self.visible,
            text: self.text.clone(),
            binding,
            position: self.position,
            font_size_bits: self.font_size_bits,
            color: self.color,
        }
    }
}

impl Clone for Layer {
    fn clone(&self) -> (copy: Layer)
        ensures
            copy == *self,
    {
        match self {
            Layer::Background(layer) => Layer::Background(*layer),
            Layer::Image(layer) => Layer::Image(layer.clone()),
            Layer::Text(layer) => Layer::Text(layer.clone()),
        }
    }
}

impl Layer {
    /// The layer's identifier.
    pub open spec fn spec_id(&self) -> LayerId {
        match self {
            Layer::Background(layer) => layer.id,
            Layer::Image(layer) => layer.id,
            Layer::Text(layer) => layer.id,
        }
    }

    /// Whether the layer is drawn.
    pub open spec fn spec_visible(&self) -> bool {
        match self {
            Layer::Background(layer) => layer.visible,
            Layer::Image(layer) => layer.visible,
            Layer::Text(layer) => layer.visible,
        }
    }

    /// The same layer with its visibility flag set to `visible`.
    pub open spec fn with_visibility(self, visible: bool) -> Layer {
        match self {
            Layer::Background(layer) => Layer::Background(BackgroundLayer { visible, ..layer }),
            Layer::Image(layer) => Layer::Image(ImageLayer { visible, ..layer }),
            Layer::Text(layer) => Layer::Text(TextLayer { visible, ..layer }),
        }
    }

    #[verifier::when_used_as_spec(spec_id)]
    pub fn id(&self) -> (id: LayerId)
        ensures
            id == self.spec_id(),
    {
        match self {
            Layer::Background(layer) => layer.id,
            Layer::Image(layer) => layer.id,
            Layer::Text(layer) => layer.id,
        }
    }

    #[verifier::when_used_as_spec(spec_visible)]
    pub fn visible(&self) -> (visible: bool)
        ensures
            visible == self.spec_visible(),
    {
        match self {
            Layer::Background(layer) => layer.visible,
            Layer::Image(layer) => layer.visible,
            Layer::Text(layer) => layer.visible,
        }
    }

    /// Shows or hides the layer; nothing else changes.
    pub fn set_visible(&mut self, visible: bool)
        ensures
            *final(self) == old(self).with_visibility(visible),
    {
        match self {
            Layer::Background(layer) => {
                layer.visible = visible;
            },
            Layer::Image(layer) => {
                layer.visible = visible;
            },
            Layer::Text(layer) => {
                layer.visible = visible;
            },
        }
    }
}

impl BackgroundLayer {
    /// A visible background of `color`.
    pub fn new(id: LayerId, color: [u8; 4]) -> (layer: BackgroundLayer)
        ensures
            layer == (BackgroundLayer { id, visible: true, color }),
    {
        BackgroundLayer { id, visible: true, color }
    }
}

impl ImageLayer {
    /// A visible, fully opaque image that covers `rect`.
    pub fn new(id: LayerId, source: &str, rect: LogicalRect) -> (layer: ImageLayer)
        ensures
            layer.id == id,
            layer.visible,
            layer.source@ == source@,
            layer.rect == rect,
            layer.fit == ImageFit::Cover,
            layer.opacity == 255,
    {
        ImageLayer { id, visible: true, source: source.to_owned(), rect, fit: ImageFit::Cover, opacity: 255 }
    }
}

impl TextLayer {
    /// A visible, unbound text layer.
    pub fn new(
        id: LayerId,
        text: &str,
        position: LogicalPosition,
        font_size_bits: u32,
        color: [u8; 4],
    ) -> (layer: TextLayer)
        ensures
            layer.id == id,
            layer.visible,
            layer.text@ == text@,
            layer.binding.is_none(),
            layer.position == position,
            layer.font_size_bits == font_size_bits,
            layer.color == color,
    {
        TextLayer {
            id,
            visible: true,
            text: text.to_owned(),
            binding: None,
            position,
            font_size_bits,
            color,
        }
    }

    /// The same layer, bound to `binding`.
    pub fn with_binding(self, binding: TextBinding) -> (layer: TextLayer)
        ensures
            layer == (TextLayer { binding: Some(binding), ..self }),
    {
        let mut layer = self;
        layer.binding = Some(binding);
        layer
    }

    /// Removes the layer's binding; nothing else changes.
    pub fn clear_binding(&mut self)
        ensures
            *final(self) == (TextLayer { binding: None, ..*old(self) }),
    {
        self.binding = None;
    }

    /// The layer's anchor as an empty rectangle at its position.
    pub fn logical_bounds(&self) -> (bounds: LogicalRect)
        ensures
            bounds.position == self.position,
            bounds.size.width_bits == 0,
            bounds.size.height_bits == 0,
    {
        LogicalRect::new(self.position.x_bits, self.position.y_bits, 0, 0)
    }
}

} // verus!
