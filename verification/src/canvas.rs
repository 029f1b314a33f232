//! The canvas: layers of pixels that are drawn on and merged into a frame.

use vstd::prelude::*;
use crate::blend::{
    lemma_merge_transparent, merge_channel, merge_channel_value, paint_channel,
    paint_channel_value,
};
use crate::brush::{Brush, DEFAULT_HARDNESS, DEFAULT_RADIUS, DEFAULT_SPACING};
use crate::input::Stroke;
use crate::operations::{buffer_len, stroke_blended, stroke_steps, PaintOperation};
use crate::stamp::soft_circle_stamp;

verus! {

/// The opacity of the canvas's brush, in 1/255.
pub const CANVAS_OPACITY: u8 = 38;

/// The byte at `i` of a frame after a layer was laid over it: a colour
/// channel is mixed by the alpha of the layer's pixel, and the alpha is
/// laid over the frame's alpha.
pub open spec fn merged_byte(frame: Seq<u8>, layer: Seq<u8>, i: int) -> u8 {
    let alpha = layer[i - i % 4 + 3];
    if i % 4 == 3 {
        paint_channel_value(frame[i], alpha) as u8
    } else {
        merge_channel_value(frame[i], layer[i], alpha) as u8
    }
}

/// A frame after a layer was laid over it.
pub open spec fn layer_merged(frame: Seq<u8>, layer: Seq<u8>) -> Seq<u8> {
    Seq::new(frame.len(), |i: int| merged_byte(frame, layer, i))
}

/// A frame after the first `count` layers were laid over it, in order.
pub open spec fn layers_merged(frame: Seq<u8>, layers: Seq<Seq<u8>>, count: nat) -> Seq<u8>
    decreases count,
{
    if count == 0 {
        frame
    } else {
        layer_merged(layers_merged(frame, layers, (count - 1) as nat), layers[count - 1])
    }
}

/// A frame of `len` bytes that are all zero: transparent black.
pub open spec fn cleared_frame(len: nat) -> Seq<u8> {
    Seq::new(len, |i: int| 0u8)
}

/// What the layers hold, in order.
pub open spec fn layer_models(layers: Seq<Vec<u8>>) -> Seq<Seq<u8>> {
    layers.map_values(|layer: Vec<u8>| layer@)
}

/// Every pixel of the layer has alpha zero.
pub open spec fn is_transparent(layer: Seq<u8>) -> bool {
    forall|i: int| 0 <= i < layer.len() && i % 4 == 3 ==> layer[i] == 0
}

/// Merging layers that are all transparent, or no layer at all, leaves a
/// cleared frame cleared.
pub proof fn lemma_transparent_layers_merge_to_cleared(
    layers: Seq<Seq<u8>>,
    count: nat,
    len: nat,
)
    requires
        count <= layers.len(),
        len % 4 == 0,
        forall|k: int| 0 <= k < count ==> (#[trigger] layers[k]).len() == len,
        forall|k: int| 0 <= k < count ==> is_transparent(#[trigger] layers[k]),
    ensures
        layers_merged(cleared_frame(len), layers, count) == cleared_frame(len),
    decreases count,
{
    if count > 0 {
        lemma_transparent_layers_merge_to_cleared(layers, (count - 1) as nat, len);
        let layer = layers[count - 1];
        assert(is_transparent(layer));
        let below = cleared_frame(len);
        assert forall|i: int| 0 <= i < len implies merged_byte(below, layer, i) == 0u8 by {
            let a = i - i % 4 + 3;
            assert(0 <= a < len && a % 4 == 3);
            assert(layer[a] == 0);
            lemma_merge_transparent(0, layer[i]);
        }
        assert(layer_merged(below, layer) =~= below);
    }
}

/// Lays a layer over a frame of the same size, pixel by pixel.
pub fn merge_layer(frame: &mut Vec<u8>, layer: &Vec<u8>)
    requires
        old(frame).len() == layer.len(),
        layer.len() % 4 == 0,
    ensures
        final(frame)@ == layer_merged(old(frame)@, layer@),
{
    let ghost start = frame@;
    let len: usize = frame.len();
    let mut p: usize = 0;
    while p < len
        invariant
            p % 4 == 0,
            p <= len,
            len % 4 == 0,
            frame.len() == len,
            layer.len() == len,
            start.len() == len,
            forall|i: int| 0 <= i < p ==> frame@[i] == merged_byte(start, layer@, i),
            forall|i: int| p <= i < len ==> frame@[i] == start[i],
        decreases len - p,
    {
        let alpha: u8 = layer[p + 3];
        let red: u8 = merge_channel(frame[p], layer[p], alpha);
        let green: u8 = merge_channel(frame[p + 1], layer[p + 1], alpha);
        let blue: u8 = merge_channel(frame[p + 2], layer[p + 2], alpha);
        let over: u8 = paint_channel(frame[p + 3], alpha);
        frame.set(p, red);
        frame.set(p + 1, green);
        frame.set(p + 2, blue);
        frame.set(p + 3, over);
        p += 4;
    }
    assert(frame@ =~= layer_merged(start, layer@));
}

/// Sets every byte of the frame to zero.
fn clear_frame(frame: &mut Vec<u8>)
    ensures
        final(frame)@ == cleared_frame(old(frame)@.len()),
{
    let len: usize = frame.len();
    let mut i: usize = 0;
    while i < len
        invariant
            i <= len,
            frame.len() == len,
            forall|k: int| 0 <= k < i ==> frame@[k] == 0u8,
        decreases len - i,
    {
        frame.set(i, 0);
        i += 1;
    }
    assert(frame@ =~= cleared_frame(len as nat));
}

/// Layers of one size, one of which is drawn on.
pub struct Canvas {
    pub layers: Vec<Vec<u8>>,
    pub width: u32,
    pub height: u32,
    pub current_layer: usize,
    pub dirty: bool,
}

impl Canvas {
    /// Every layer holds `width * height` pixels of four bytes.
    pub open spec fn layers_fit(&self) -> bool {
        forall|i: int|
            0 <= i < self.layers.len() ==> (#[trigger] self.layers[i]).len() == buffer_len(
                self.width,
                self.height,
            )
    }

    /// Every layer has the size of the canvas, and the current layer is
    /// one of them.
    pub open spec fn well_formed(&self) -> bool {
        self.layers_fit() && self.current_layer < self.layers.len()
    }

    /// The current layer after a stroke of the canvas's brush from `last`
    /// to `cursor`: the default brush at `CANVAS_OPACITY`, in white.
    pub open spec fn stroke(
        &self,
        cursor: (i32, i32),
        last: (i32, i32),
        is_eraser: bool,
    ) -> Seq<u8> {
        let steps = stroke_steps(
            cursor.0 - last.0,
            cursor.1 - last.1,
            DEFAULT_RADIUS as nat,
            DEFAULT_SPACING as nat,
        );
        stroke_blended(
            self.layers[self.current_layer as int]@,
            self.width,
            self.height,
            (last.0 as int, last.1 as int),
            (cursor.0 as int, cursor.1 as int),
            steps,
            steps + 1,
            soft_circle_stamp(
                DEFAULT_RADIUS as nat,
                DEFAULT_HARDNESS,
                CANVAS_OPACITY,
                if is_eraser {
                    seq![0u8, 0u8, 0u8]
                } else {
                    seq![255u8, 255u8, 255u8]
                },
            ),
            is_eraser,
            CANVAS_OPACITY,
        )
    }

    /// The canvas after a stroke on its current layer: that layer alone
    /// has changed, and the canvas is dirty.
    pub open spec fn drawn_on(
        &self,
        before: &Canvas,
        cursor: (i32, i32),
        last: (i32, i32),
        is_eraser: bool,
    ) -> bool {
        &&& self.dirty
        &&& self.width == before.width
        &&& self.height == before.height
        &&& self.current_layer == before.current_layer
        &&& self.layers.len() == before.layers.len()
        &&& self.layers[self.current_layer as int]@ == before.stroke(cursor, last, is_eraser)
        &&& forall|i: int|
            0 <= i < self.layers.len() && i != self.current_layer ==> #[trigger] self.layers[i]
                == before.layers[i]
    }

    /// A canvas of two transparent layers, the first of them current,
    /// that is yet to be shown.
    pub fn new(width: u32, height: u32) -> (canvas: Canvas)
        requires
            buffer_len(width, height) <= usize::MAX,
        ensures
            canvas.well_formed(),
            canvas.width == width,
            canvas.height == height,
            canvas.current_layer == 0,
            canvas.dirty,
            canvas.layers.len() == 2,
            canvas.layers[0]@ == cleared_frame(buffer_len(width, height)),
            canvas.layers[1]@ == cleared_frame(buffer_len(width, height)),
    {
        let size: usize = (width as u64 * height as u64 * 4) as usize;
        let layer1: Vec<u8> = vec![0u8; size];
        let layer2: Vec<u8> = vec![0u8; size];
        assert(layer1@ =~= cleared_frame(buffer_len(width, height)));
        assert(layer2@ =~= cleared_frame(buffer_len(width, height)));
        let mut layers: Vec<Vec<u8>> = Vec::new();
        layers.push(layer1);
        layers.push(layer2);
        Canvas { layers, width, height, current_layer: 0, dirty: true }
    }

    fn draw(&mut self, cursor_position: (i32, i32), last_cursor_position: (i32, i32), is_eraser: bool)
        requires
            old(self).well_formed(),
        ensures
            final(self).well_formed(),
            final(self).drawn_on(old(self), cursor_position, last_cursor_position, is_eraser),
    {
        self.dirty = true;
        let brush = Brush::default().with_opacity(CANVAS_OPACITY);
        let color: [u8; 3] = if is_eraser {
            [0, 0, 0]
        } else {
            [255, 255, 255]
        };
        assert(color@ =~= if is_eraser {
            seq![0u8, 0u8, 0u8]
        } else {
            seq![255u8, 255u8, 255u8]
        });
        let width: u32 = self.width;
        let height: u32 = self.height;
        let current: usize = self.current_layer;
        let operation = PaintOperation {
            pixel_buffer: &mut self.layers[current],
            pixel_buffer_width: width,
            pixel_buffer_height: height,
            brush: &brush,
            color,
            cursor_position,
            last_cursor_position,
            is_eraser,
        };
        let _ = operation.process();
    }

    /// Paints a white stroke of the canvas's brush on the current layer,
    /// from the last cursor position to this one.
    pub fn paint(&mut self, cursor_position: (i32, i32), last_cursor_position: (i32, i32))
        requires
            old(self).well_formed(),
        ensures
            final(self).well_formed(),
            final(self).drawn_on(old(self), cursor_position, last_cursor_position, false),
    {
        self.draw(cursor_position, last_cursor_position, false);
    }

    /// Erases along a stroke of the canvas's brush on the current layer,
    /// from the last cursor position to this one.
    pub fn erase(&mut self, cursor_position: (i32, i32), last_cursor_position: (i32, i32))
        requires
            old(self).well_formed(),
        ensures
            final(self).well_formed(),
            final(self).drawn_on(old(self), cursor_position, last_cursor_position, true),
    {
        self.draw(cursor_position, last_cursor_position, true);
    }

    /// Draws what the pointer asks for at a redraw: a painted stroke, an
    /// erased one, or nothing, which leaves the canvas as it is.
    pub fn apply(&mut self, stroke: Stroke)
        requires
            old(self).well_formed(),
        ensures
            final(self).well_formed(),
            match stroke {
                Stroke::Idle => *final(self) == *old(self),
                Stroke::Paint { cursor, last_cursor } => final(self).drawn_on(
                    old(self),
                    cursor,
                    last_cursor,
                    false,
                ),
                Stroke::Erase { cursor, last_cursor } => final(self).drawn_on(
                    old(self),
                    cursor,
                    last_cursor,
                    true,
                ),
            },
    {
        match stroke {
            Stroke::Idle => {},
            Stroke::Paint { cursor, last_cursor } => {
                self.paint(cursor, last_cursor);
            },
            Stroke::Erase { cursor, last_cursor } => {
                self.erase(cursor, last_cursor);
            },
        }
    }

    /// Merges the layers into the frame if the canvas is dirty: the frame
    /// is cleared, the layers are laid over it in order, and the canvas is
    /// clean. A clean canvas leaves the frame as it is. Says whether the
    /// frame was written.
    pub fn render(&mut self, frame: &mut Vec<u8>) -> (merged: bool)
        requires
            old(self).layers_fit(),
            old(frame).len() == buffer_len(old(self).width, old(self).height),
        ensures
            merged == old(self).dirty,
            !final(self).dirty,
            final(self).layers == old(self).layers,
            final(self).width == old(self).width,
            final(self).height == old(self).height,
            final(self).current_layer == old(self).current_layer,
            merged ==> final(frame)@ == layers_merged(
                cleared_frame(old(frame)@.len()),
                layer_models(old(self).layers@),
                old(self).layers@.len(),
            ),
            !merged ==> final(frame)@ == old(frame)@,
    {
        if !self.dirty {
            return false;
        }
        self.dirty = false;
        clear_frame(frame);
        let ghost cleared = frame@;
        let mut k: usize = 0;
        while k < self.layers.len()
            invariant
                k <= self.layers.len(),
                self.layers_fit(),
                frame.len() == buffer_len(self.width, self.height),
                frame@ == layers_merged(cleared, layer_models(self.layers@), k as nat),
            decreases self.layers.len() - k,
        {
            assert(self.layers[k as int].len() == buffer_len(self.width, self.height));
            assert(layer_models(self.layers@)[k as int] == self.layers[k as int]@);
            merge_layer(frame, &self.layers[k]);
            k += 1;
        }
        true
    }
}

} // verus!
