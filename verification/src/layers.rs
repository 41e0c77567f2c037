use vstd::prelude::*;

verus! {

use crate::blit::{blit, spec_blit};
use crate::color::Rgba;
use crate::framebuffer::{pixel_index, FrameBuffer};
use crate::geometry::{spec_norm_mdeg, Rotation};
use crate::raster::{
    draw_line, fill_rect, lemma_axis_aligned_covers, outline_rect, spec_draw_line,
    spec_fill_rect, spec_outline_rect,
};
use crate::rect::Rect;
use crate::texture::{spec_find, Texture, TextureManager};
use crate::tiles::TileMap;
use crate::Vec2;

/// What can be asked of the compositor: the closed set of drawable
/// shapes. A command carries everything it needs except the pixels of a
/// texture, which it refers to by name.
pub enum DrawCommand {
    FilledRect { rect: Rect, color: Rgba },
    OutlinedRect { rect: Rect, color: Rgba },
    Line { start: Vec2, end: Vec2, color: Rgba },
    TextureBlit {
        name: String,
        src: Option<Rect>,
        dest: Rect,
        tint: Option<Rgba>,
        alpha: Option<u8>,
    },
}

/// What can sit in a layer and be composited.
pub trait Layerable {

}

impl Layerable for DrawCommand {

}

impl Layerable for TileMap {

}

/// An ordered bucket of draw commands. Layers are composited in ascending
/// index order; within a layer, commands run in insertion order.
pub struct Layer {
    pub index: usize,
    pub commands: Vec<DrawCommand>,
    pub visible: bool,
}

/// One command applied to the buffer contents. A texture blit whose name
/// no texture carries changes nothing: the command is skipped and the
/// frame goes on.
pub open spec fn spec_apply_command(
    p: Seq<Rgba>,
    w: int,
    store: Seq<Texture>,
    cmd: DrawCommand,
) -> Seq<Rgba> {
    match cmd {
        DrawCommand::FilledRect { rect, color } => spec_fill_rect(p, w, rect, color),
        DrawCommand::OutlinedRect { rect, color } => spec_outline_rect(p, w, rect, color),
        DrawCommand::Line { start, end, color } => spec_draw_line(
            p,
            w,
            start.x as int,
            start.y as int,
            end.x as int,
            end.y as int,
            color,
        ),
        DrawCommand::TextureBlit { name, src, dest, tint, alpha } => match spec_find(
            store,
            name@,
        ) {
            Some(ti) => spec_blit(p, w, store[ti], src, dest, tint, alpha),
            None => p,
        },
    }
}

/// The first `k` commands of a list applied in order.
pub open spec fn spec_apply_commands(
    p: Seq<Rgba>,
    w: int,
    store: Seq<Texture>,
    cmds: Seq<DrawCommand>,
    k: int,
) -> Seq<Rgba>
    decreases k,
{
    if k <= 0 {
        p
    } else {
        spec_apply_command(spec_apply_commands(p, w, store, cmds, k - 1), w, store, cmds[k - 1])
    }
}

/// One layer applied to the buffer contents: all its commands in
/// insertion order, or nothing when the layer is hidden.
pub open spec fn spec_apply_layer(p: Seq<Rgba>, w: int, store: Seq<Texture>, l: Layer) -> Seq<
    Rgba,
> {
    if l.visible {
        spec_apply_commands(p, w, store, l.commands@, l.commands@.len() as int)
    } else {
        p
    }
}

/// The first `k` layers applied in ascending order.
pub open spec fn spec_apply_layers(
    p: Seq<Rgba>,
    w: int,
    store: Seq<Texture>,
    layers: Seq<Layer>,
    k: int,
) -> Seq<Rgba>
    decreases k,
{
    if k <= 0 {
        p
    } else {
        spec_apply_layer(spec_apply_layers(p, w, store, layers, k - 1), w, store, layers[k - 1])
    }
}

/// The whole frame: every layer in ascending index order, commands in
/// insertion order within each. This is the single compositing invariant
/// the system depends on: later layers and later commands draw over
/// earlier ones.
pub open spec fn spec_composite(
    p: Seq<Rgba>,
    w: int,
    store: Seq<Texture>,
    layers: Seq<Layer>,
) -> Seq<Rgba> {
    spec_apply_layers(p, w, store, layers, layers.len() as int)
}

/// How many layers exist after a command lands in layer `li`: layers are
/// created lazily up to the first index used.
pub open spec fn spec_padded_len(oldlen: int, li: int) -> int {
    if li < oldlen {
        oldlen
    } else {
        li + 1
    }
}

/// The relation between the layer list before and after one command is
/// recorded in layer `li`: missing layers up to `li` appear empty and
/// visible, every other layer is untouched, and the command stands at the
/// end of layer `li`'s list.
pub open spec fn spec_drawn(
    old_layers: Seq<Layer>,
    new_layers: Seq<Layer>,
    cmd: DrawCommand,
    li: int,
) -> bool {
    &&& new_layers.len() == spec_padded_len(old_layers.len() as int, li)
    &&& forall|i: int|
        0 <= i < old_layers.len() && i != li ==> new_layers[i] == old_layers[i]
    &&& forall|i: int|
        old_layers.len() <= i < new_layers.len() && i != li ==> (#[trigger] new_layers[i]).index
            == i && new_layers[i].visible && new_layers[i].commands@.len() == 0
    &&& new_layers[li].index == li
    &&& new_layers[li].visible == (if li < old_layers.len() {
        old_layers[li].visible
    } else {
        true
    })
    &&& new_layers[li].commands@ == (if li < old_layers.len() {
        old_layers[li].commands@
    } else {
        Seq::<DrawCommand>::empty()
    }).push(cmd)
}

/// The relation between the layer list before and after a whole list of
/// commands is recorded in layer `li`, in order.
pub open spec fn spec_drawn_many(
    old_layers: Seq<Layer>,
    new_layers: Seq<Layer>,
    cmds: Seq<DrawCommand>,
    li: int,
) -> bool {
    &&& new_layers.len() == spec_padded_len(old_layers.len() as int, li)
    &&& forall|i: int|
        0 <= i < old_layers.len() && i != li ==> new_layers[i] == old_layers[i]
    &&& forall|i: int|
        old_layers.len() <= i < new_layers.len() && i != li ==> (#[trigger] new_layers[i]).index
            == i && new_layers[i].visible && new_layers[i].commands@.len() == 0
    &&& new_layers[li].index == li
    &&& new_layers[li].visible == (if li < old_layers.len() {
        old_layers[li].visible
    } else {
        true
    })
    &&& new_layers[li].commands@ == (if li < old_layers.len() {
        old_layers[li].commands@
    } else {
        Seq::<DrawCommand>::empty()
    }) + cmds
}

/// The command that draws one generated tile: a full-texture blit into
/// the tile's cell rectangle, under the grid's tint.
pub open spec fn spec_tile_blit_cmd(
    map: TileMap,
    j: int,
    tint: Option<Rgba>,
    alpha: Option<u8>,
) -> DrawCommand {
    let t = map.tiles@[j];
    DrawCommand::TextureBlit {
        name: map.tilesets@[t.tileset_index as int].tile_types@[t.tile_index as int],
        src: None,
        dest: t.rect,
        tint,
        alpha,
    }
}

/// The describe-phase state of a frame: an ordered list of layers that
/// game code fills with draw commands, composited to a frame buffer in
/// one call. Layer `i` of the list has index `i`.
pub struct Context {
    pub layers: Vec<Layer>,
}

impl Context {
    pub open spec fn wf(self) -> bool {
        forall|i: int| 0 <= i < self.layers@.len() ==> (#[trigger] self.layers@[i]).index == i
    }

    pub fn new() -> (r: Context)
        ensures
            r.wf(),
            r.layers@.len() == 0,
    {
        Context { layers: Vec::new() }
    }

    /// Record a draw command in the layer of the given index, creating
    /// the layer (and any missing one below it) on first use.
    pub fn draw(&mut self, cmd: DrawCommand, layer: usize)
        requires
            old(self).wf(),
            layer < usize::MAX,
        ensures
            final(self).wf(),
            spec_drawn(old(self).layers@, final(self).layers@, cmd, layer as int),
    {
        while self.layers.len() <= layer
            invariant
                self.wf(),
                self.layers@.len() <= spec_padded_len(old(self).layers@.len() as int, layer as int),
                old(self).layers@.len() <= self.layers@.len(),
                forall|i: int|
                    0 <= i < old(self).layers@.len() ==> self.layers@[i] == old(self).layers@[i],
                forall|i: int|
                    old(self).layers@.len() <= i < self.layers@.len() ==> (
                    #[trigger] self.layers@[i]).index == i && self.layers@[i].visible
                        && self.layers@[i].commands@.len() == 0,
            decreases layer + 1 - self.layers.len(),
        {
            let idx = self.layers.len();
            self.layers.push(Layer { index: idx, commands: Vec::new(), visible: true });
        }
        let ghost padded = self.layers@;
        self.layers[layer].commands.push(cmd);
        proof {
            if layer as int >= old(self).layers@.len() {
                assert(padded[layer as int].commands@ =~= Seq::<DrawCommand>::empty());
            }
            assert(self.layers@[layer as int].commands@ == padded[layer as int].commands@.push(cmd));
        }
    }

    /// Record a filled rectangle.
    pub fn fill_rect(&mut self, rect: Rect, color: Rgba, layer: usize)
        requires
            old(self).wf(),
            layer < usize::MAX,
        ensures
            final(self).wf(),
            spec_drawn(
                old(self).layers@,
                final(self).layers@,
                DrawCommand::FilledRect { rect: Rect { fill: true, ..rect }, color },
                layer as int,
            ),
    {
        self.draw(DrawCommand::FilledRect { rect: Rect { fill: true, ..rect }, color }, layer);
    }

    /// Record a rectangle outline.
    pub fn draw_rect(&mut self, rect: Rect, color: Rgba, layer: usize)
        requires
            old(self).wf(),
            layer < usize::MAX,
        ensures
            final(self).wf(),
            spec_drawn(
                old(self).layers@,
                final(self).layers@,
                DrawCommand::OutlinedRect { rect: Rect { fill: false, ..rect }, color },
                layer as int,
            ),
    {
        self.draw(DrawCommand::OutlinedRect { rect: Rect { fill: false, ..rect }, color }, layer);
    }

    /// Record a line segment.
    pub fn draw_line(&mut self, start: Vec2, end: Vec2, color: Rgba, layer: usize)
        requires
            old(self).wf(),
            layer < usize::MAX,
        ensures
            final(self).wf(),
            spec_drawn(
                old(self).layers@,
                final(self).layers@,
                DrawCommand::Line { start, end, color },
                layer as int,
            ),
    {
        self.draw(DrawCommand::Line { start, end, color }, layer);
    }

    /// Record a texture blit. The texture is referred to by name and
    /// resolved when the frame is composited; an unknown name makes the
    /// command a no-op there, it never aborts the frame.
    pub fn draw_texture(
        &mut self,
        name: &String,
        src: Option<Rect>,
        dest: Rect,
        rotation: Option<Rotation>,
        tint: Option<Rgba>,
        alpha: Option<u8>,
        layer: usize,
    )
        requires
            old(self).wf(),
            layer < usize::MAX,
        ensures
            final(self).wf(),
            spec_drawn(
                old(self).layers@,
                final(self).layers@,
                DrawCommand::TextureBlit {
                    name: *name,
                    src,
                    dest: Rect {
                        rotation: match rotation {
                            Some(rot) => rot,
                            None => dest.rotation,
                        },
                        ..dest
                    },
                    tint,
                    alpha,
                },
                layer as int,
            ),
    {
        let dest = match rotation {
            Some(rot) => Rect { rotation: rot, ..dest },
            None => dest,
        };
        self.draw(
            DrawCommand::TextureBlit { name: name.clone(), src, dest, tint, alpha },
            layer,
        );
    }

    /// Hide or show a layer; indices outside the list are ignored.
    pub fn set_layer_visible(&mut self, layer: usize, visible: bool)
        requires
            old(self).wf(),
        ensures
            final(self).wf(),
            final(self).layers@.len() == old(self).layers@.len(),
            forall|i: int|
                0 <= i < old(self).layers@.len() && i != layer ==> final(self).layers@[i] == old(
                    self,
                ).layers@[i],
            layer < old(self).layers@.len() ==> final(self).layers@[layer as int] == (Layer {
                visible,
                ..old(self).layers@[layer as int]
            }),
    {
        if layer < self.layers.len() {
            self.layers[layer].visible = visible;
        }
    }

    /// Composite the frame: walk the layers in ascending index order,
    /// skip hidden ones, and run each layer's commands in insertion
    /// order against the frame buffer.
    pub fn composite(&self, fb: &mut FrameBuffer, store: &TextureManager)
        requires
            old(fb).wf(),
            store.wf(),
        ensures
            final(fb).wf(),
            final(fb).spec_width() == old(fb).spec_width(),
            final(fb).spec_height() == old(fb).spec_height(),
            final(fb)@ == spec_composite(
                old(fb)@,
                old(fb).spec_width(),
                store.textures@,
                self.layers@,
            ),
    {
        let ghost p0 = fb@;
        let ghost wi = fb.spec_width();
        let ghost hi = fb.spec_height();
        let nl: usize = self.layers.len();
        let mut k: usize = 0;
        while k < nl
            invariant
                fb.wf(),
                fb.spec_width() == wi,
                fb.spec_height() == hi,
                store.wf(),
                nl == self.layers@.len(),
                k <= nl,
                fb@ == spec_apply_layers(p0, wi, store.textures@, self.layers@, k as int),
            decreases nl - k,
        {
            let lay = &self.layers[k];
            let ghost pk = fb@;
            if lay.visible {
                let nc: usize = lay.commands.len();
                let mut j: usize = 0;
                while j < nc
                    invariant
                        fb.wf(),
                        fb.spec_width() == wi,
                        fb.spec_height() == hi,
                        store.wf(),
                        nl == self.layers@.len(),
                        k < nl,
                        lay == &self.layers@[k as int],
                        lay.visible,
                        nc == lay.commands@.len(),
                        j <= nc,
                        pk == spec_apply_layers(p0, wi, store.textures@, self.layers@, k as int),
                        fb@ == spec_apply_commands(pk, wi, store.textures@, lay.commands@, j as int),
                    decreases nc - j,
                {
                    let ghost pj = fb@;
                    let cmd = &lay.commands[j];
                    match cmd {
                        DrawCommand::FilledRect { rect, color } => {
                            fill_rect(fb, rect, *color);
                        },
                        DrawCommand::OutlinedRect { rect, color } => {
                            outline_rect(fb, rect, *color);
                        },
                        DrawCommand::Line { start, end, color } => {
                            draw_line(fb, *start, *end, *color);
                        },
                        DrawCommand::TextureBlit { name, src, dest, tint, alpha } => {
                            match store.get_texture(name) {
                                Some(tex) => {
                                    proof {
                                        crate::texture::lemma_find_from_props(
                                            store.textures@,
                                            name@,
                                            0,
                                        );
                                        let ti = spec_find(store.textures@, name@)->0;
                                        assert(store.textures@[ti].wf());
                                    }
                                    blit(fb, tex, *src, dest, *tint, *alpha);
                                },
                                None => {},
                            }
                        },
                    }
                    proof {
                        assert(fb@ == spec_apply_command(pj, wi, store.textures@, lay.commands@[j as int]));
                    }
                    j = j + 1;
                }
            }
            proof {
                assert(fb@ == spec_apply_layer(pk, wi, store.textures@, self.layers@[k as int]));
            }
            k = k + 1;
        }
    }

    /// Create the layer of the given index, and any missing one below
    /// it, without recording a command.
    fn ensure_layer(&mut self, layer: usize)
        requires
            old(self).wf(),
            layer < usize::MAX,
        ensures
            final(self).wf(),
            spec_drawn_many(
                old(self).layers@,
                final(self).layers@,
                Seq::<DrawCommand>::empty(),
                layer as int,
            ),
    {
        while self.layers.len() <= layer
            invariant
                self.wf(),
                self.layers@.len() <= spec_padded_len(old(self).layers@.len() as int, layer as int),
                old(self).layers@.len() <= self.layers@.len(),
                forall|i: int|
                    0 <= i < old(self).layers@.len() ==> self.layers@[i] == old(self).layers@[i],
                forall|i: int|
                    old(self).layers@.len() <= i < self.layers@.len() ==> (
                    #[trigger] self.layers@[i]).index == i && self.layers@[i].visible
                        && self.layers@[i].commands@.len() == 0,
            decreases layer + 1 - self.layers.len(),
        {
            let idx = self.layers.len();
            self.layers.push(Layer { index: idx, commands: Vec::new(), visible: true });
        }
        proof {
            if layer as int >= old(self).layers@.len() {
                assert(self.layers@[layer as int].commands@ =~= Seq::<DrawCommand>::empty()
                    + Seq::<DrawCommand>::empty());
            } else {
                assert(self.layers@[layer as int].commands@ =~= old(self).layers@[
                    layer as int
                ].commands@ + Seq::<DrawCommand>::empty());
            }
        }
    }

    /// Record one texture blit per generated tile of the grid, in
    /// row-major cell order: a tile grid has no rendering path of its
    /// own. Every tile's texture reference must resolve to a name, which
    /// `tiles_valid` checks; whether the names themselves are known is
    /// only decided when the frame is composited.
    pub fn draw_tilemap(
        &mut self,
        map: &TileMap,
        tint: Option<Rgba>,
        alpha: Option<u8>,
        layer: usize,
    )
        requires
            old(self).wf(),
            layer < usize::MAX,
            map.spec_tiles_valid(),
        ensures
            final(self).wf(),
            spec_drawn_many(
                old(self).layers@,
                final(self).layers@,
                Seq::new(map.tiles@.len(), |j: int| spec_tile_blit_cmd(*map, j, tint, alpha)),
                layer as int,
            ),
    {
        let ghost cmds = Seq::new(
            map.tiles@.len(),
            |j: int| spec_tile_blit_cmd(*map, j, tint, alpha),
        );
        self.ensure_layer(layer);
        let ghost base = self.layers@;
        proof {
            assert(base[layer as int].commands@ =~= (if (layer as int) < old(
                self,
            ).layers@.len() {
                old(self).layers@[layer as int].commands@
            } else {
                Seq::<DrawCommand>::empty()
            }) + Seq::<DrawCommand>::empty());
        }
        let n: usize = map.tiles.len();
        let mut k: usize = 0;
        while k < n
            invariant
                self.wf(),
                layer < usize::MAX,
                n == map.tiles@.len(),
                k <= n,
                map.spec_tiles_valid(),
                cmds == Seq::new(
                    map.tiles@.len(),
                    |j: int| spec_tile_blit_cmd(*map, j, tint, alpha),
                ),
                (layer as int) < base.len(),
                base.len() == spec_padded_len(old(self).layers@.len() as int, layer as int),
                self.layers@.len() == base.len(),
                forall|i: int| 0 <= i < base.len() && i != layer ==> self.layers@[i] == base[i],
                forall|i: int|
                    0 <= i < old(self).layers@.len() && i != layer ==> base[i] == old(
                        self,
                    ).layers@[i],
                forall|i: int|
                    old(self).layers@.len() <= i < base.len() && i != layer ==> (
                    #[trigger] base[i]).index == i && base[i].visible && base[i].commands@.len()
                        == 0,
                self.layers@[layer as int].index == layer,
                self.layers@[layer as int].visible == (if (layer as int) < old(
                    self,
                ).layers@.len() {
                    old(self).layers@[layer as int].visible
                } else {
                    true
                }),
                self.layers@[layer as int].commands@ == (if (layer as int) < old(
                    self,
                ).layers@.len() {
                    old(self).layers@[layer as int].commands@
                } else {
                    Seq::<DrawCommand>::empty()
                }) + cmds.take(k as int),
            decreases n - k,
        {
            let t = &map.tiles[k];
            let name = match map.get_texture_name(t.tileset_index, t.tile_index) {
                Some(n) => n,
                None => {
                    proof {
                        assert(false);
                    }
                    unreached()
                },
            };
            let cmd = DrawCommand::TextureBlit {
                name: name.clone(),
                src: None,
                dest: t.rect,
                tint: tint,
                alpha: alpha,
            };
            let ghost pre = self.layers@;
            proof {
                assert(cmd == spec_tile_blit_cmd(*map, k as int, tint, alpha));
                assert(cmds[k as int] == spec_tile_blit_cmd(*map, k as int, tint, alpha));
            }
            self.draw(cmd, layer);
            proof {
                assert(self.layers@[layer as int].commands@ == pre[layer as int].commands@.push(
                    cmd,
                ));
                assert(cmds.take(k as int).push(cmds[k as int]) =~= cmds.take(k as int + 1));
                assert(self.layers@[layer as int].commands@ =~= (if (layer as int) < old(
                    self,
                ).layers@.len() {
                    old(self).layers@[layer as int].commands@
                } else {
                    Seq::<DrawCommand>::empty()
                }) + cmds.take(k as int + 1));
            }
            k = k + 1;
        }
        proof {
            assert(cmds.take(n as int) =~= cmds);
            assert forall|i: int|
                old(self).layers@.len() <= i < self.layers@.len() && i != layer as int implies (
            #[trigger] self.layers@[i]).index == i && self.layers@[i].visible
                && self.layers@[i].commands@.len() == 0 by {
                assert(self.layers@[i] == base[i]);
            }
            assert forall|i: int|
                0 <= i < old(self).layers@.len() && i != layer as int implies self.layers@[i]
                == old(self).layers@[i] by {
                assert(self.layers@[i] == base[i]);
            }
        }
    }

    /// Start a new frame's describe phase: clear every layer's command
    /// list, keeping the layers, their indices and their visibility.
    pub fn reset(&mut self)
        requires
            old(self).wf(),
        ensures
            final(self).wf(),
            final(self).layers@.len() == old(self).layers@.len(),
            forall|i: int|
                0 <= i < old(self).layers@.len() ==> (#[trigger] final(self).layers@[i]).index
                    == old(self).layers@[i].index && final(self).layers@[i].visible == old(
                    self,
                ).layers@[i].visible && final(self).layers@[i].commands@.len() == 0,
    {
        let n: usize = self.layers.len();
        let mut i: usize = 0;
        while i < n
            invariant
                n == self.layers@.len(),
                i <= n,
                forall|j: int|
                    0 <= j < n ==> (#[trigger] self.layers@[j]).index == old(self).layers@[j].index
                        && self.layers@[j].visible == old(self).layers@[j].visible,
                forall|j: int| 0 <= j < i ==> (#[trigger] self.layers@[j]).commands@.len() == 0,
            decreases n - i,
        {
            self.layers[i].commands.clear();
            i = i + 1;
        }
    }
}

/// Law: when two fully opaque filled rectangles cover the same pixel from
/// two layers, the higher layer's color wins: later layers draw over
/// earlier ones.
pub proof fn lemma_higher_layer_wins(
    p: Seq<Rgba>,
    w: int,
    h: int,
    store: Seq<Texture>,
    r: Rect,
    c1: Rgba,
    c2: Rgba,
    l0: Layer,
    l1: Layer,
    x: int,
    y: int,
)
    requires
        p.len() == w * h,
        l0.visible,
        l1.visible,
        l0.commands@ == seq![DrawCommand::FilledRect { rect: r, color: c1 }],
        l1.commands@ == seq![DrawCommand::FilledRect { rect: r, color: c2 }],
        spec_norm_mdeg(r.rotation.spec_millidegrees()) == 0,
        r.spec_contains(x, y),
        0 <= x < w,
        0 <= y < h,
    ensures
        spec_composite(p, w, store, seq![l0, l1])[pixel_index(w, x, y)] == c2,
{
    reveal_with_fuel(spec_apply_commands, 3);
    reveal_with_fuel(spec_apply_layers, 3);
    let layers = seq![l0, l1];
    let s0 = spec_apply_layers(p, w, store, layers, 0);
    let s1 = spec_apply_layers(p, w, store, layers, 1);
    let s2 = spec_apply_layers(p, w, store, layers, 2);
    assert(s0 == p);
    assert(s1 == spec_apply_layer(p, w, store, l0));
    assert(s2 == spec_apply_layer(s1, w, store, l1));
    assert(spec_apply_commands(s1, w, store, l1.commands@, 0) == s1);
    assert(spec_apply_commands(p, w, store, l0.commands@, 1) == spec_apply_command(
        p,
        w,
        store,
        l0.commands@[0],
    ));
    assert(s1 == spec_fill_rect(p, w, r, c1));
    assert(spec_apply_commands(s1, w, store, l1.commands@, 1) == spec_apply_command(
        s1,
        w,
        store,
        l1.commands@[0],
    ));
    assert(s2 == spec_fill_rect(s1, w, r, c2));
    crate::framebuffer::lemma_pixel_index(w, h, x, y);
    lemma_axis_aligned_covers(r, x, y);
}

/// Law: when two fully opaque filled rectangles cover the same pixel from
/// the same layer, the one recorded later wins: within a layer, commands
/// run in insertion order.
pub proof fn lemma_later_command_wins(
    p: Seq<Rgba>,
    w: int,
    h: int,
    store: Seq<Texture>,
    r: Rect,
    c1: Rgba,
    c2: Rgba,
    l: Layer,
    x: int,
    y: int,
)
    requires
        p.len() == w * h,
        l.visible,
        l.commands@ == seq![
            DrawCommand::FilledRect { rect: r, color: c1 },
            DrawCommand::FilledRect { rect: r, color: c2 },
        ],
        spec_norm_mdeg(r.rotation.spec_millidegrees()) == 0,
        r.spec_contains(x, y),
        0 <= x < w,
        0 <= y < h,
    ensures
        spec_composite(p, w, store, seq![l])[pixel_index(w, x, y)] == c2,
{
    reveal_with_fuel(spec_apply_commands, 4);
    reveal_with_fuel(spec_apply_layers, 3);
    let layers = seq![l];
    assert(spec_apply_layers(p, w, store, layers, 0) == p);
    assert(spec_composite(p, w, store, layers) == spec_apply_layer(p, w, store, l));
    let s1 = spec_apply_command(p, w, store, l.commands@[0]);
    assert(spec_apply_commands(p, w, store, l.commands@, 0) == p);
    assert(spec_apply_commands(p, w, store, l.commands@, 1) == s1);
    assert(spec_apply_commands(p, w, store, l.commands@, 2) == spec_apply_command(
        s1,
        w,
        store,
        l.commands@[1],
    ));
    assert(s1 == spec_fill_rect(p, w, r, c1));
    assert(spec_apply_command(s1, w, store, l.commands@[1]) == spec_fill_rect(s1, w, r, c2));
    crate::framebuffer::lemma_pixel_index(w, h, x, y);
    lemma_axis_aligned_covers(r, x, y);
}

/// Law: a texture blit whose name no texture in the store carries leaves
/// the buffer untouched; the commands after it still run, since every
/// command acts on its predecessor's output.
pub proof fn lemma_missing_texture_skipped(
    p: Seq<Rgba>,
    w: int,
    store: Seq<Texture>,
    cmd: DrawCommand,
)
    requires
        cmd is TextureBlit,
        spec_find(store, cmd->TextureBlit_name@) is None,
    ensures
        spec_apply_command(p, w, store, cmd) == p,
{
}

} // verus!
