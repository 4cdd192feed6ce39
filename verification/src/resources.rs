//! The texture store: one square array of samples per wall material.

use vstd::prelude::*;
use crate::color::Color;
use crate::maze::WallKind;

verus! {

/// The wall textures. Each is `texture_size` samples wide and high, stored
/// row by row.
pub struct Textures {
    pub wall_brick: Vec<Color>,
    pub wall_stone: Vec<Color>,
    pub wall_metal: Vec<Color>,
    pub texture_size: usize,
}

/// The index at which a texture of `len` samples, `size` to the row, is
/// read for the texel `(x, y)`: its row-major place, or the last sample
/// where that would lie beyond the end.
pub open spec fn texel_index(len: int, size: int, x: int, y: int) -> int {
    if y * size + x < len - 1 {
        y * size + x
    } else {
        len - 1
    }
}

/// A texel coordinate held within a texture `size` texels wide: never
/// beyond the last texel of its row or column. A texture without width has
/// only the coordinate zero.
pub open spec fn held_texel(coord: int, size: int) -> int {
    if size < 1 {
        0
    } else if coord > size - 1 {
        size - 1
    } else {
        coord
    }
}

/// The index at which a texture is read for the texel `(x, y)`: each
/// coordinate is first held within the texture, so that a texel beyond the
/// end of a row reads the last texel of that row, not the next row.
pub open spec fn sampled_index(len: int, size: int, x: int, y: int) -> int {
    texel_index(len, size, held_texel(x, size), held_texel(y, size))
}

/// Sampling a square texture reads the texel whose coordinates are the
/// given ones, each held at the last column or row: always a sample of the
/// texture, and for a texel within the square its own.
pub proof fn lemma_sample_in_square(size: int, x: int, y: int)
    requires
        size >= 1,
        0 <= x,
        0 <= y,
    ensures
        0 <= held_texel(x, size) < size,
        0 <= held_texel(y, size) < size,
        sampled_index(size * size, size, x, y) == held_texel(y, size) * size + held_texel(
            x,
            size,
        ),
        0 <= sampled_index(size * size, size, x, y) < size * size,
        x < size && y < size ==> sampled_index(size * size, size, x, y) == y * size + x,
{
    lemma_texel_in_square(size, held_texel(x, size), held_texel(y, size));
}

/// In a square texture every texel within the square has its row-major
/// place among the samples, and that is where it is read.
pub proof fn lemma_texel_in_square(size: int, x: int, y: int)
    requires
        0 <= x < size,
        0 <= y < size,
    ensures
        0 <= y * size + x < size * size,
        texel_index(size * size, size, x, y) == y * size + x,
{
    assert(0 <= y * size + x < size * size) by (nonlinear_arith)
        requires
            0 <= x < size,
            0 <= y < size,
    ;
}

impl Textures {
    /// Every texture is a square of `texture_size` by `texture_size`
    /// samples, and the square is not empty.
    pub open spec fn wf(&self) -> bool {
        &&& self.texture_size >= 1
        &&& self.wall_brick@.len() == self.texture_size * self.texture_size
        &&& self.wall_stone@.len() == self.texture_size * self.texture_size
        &&& self.wall_metal@.len() == self.texture_size * self.texture_size
    }

    /// Every texture has a sample to read.
    pub open spec fn usable(&self) -> bool {
        &&& self.texture_size >= 1
        &&& self.wall_brick@.len() >= 1
        &&& self.wall_stone@.len() >= 1
        &&& self.wall_metal@.len() >= 1
    }

    /// Whether every texture has a sample to read; see
    /// [`Textures::usable`].
    pub fn is_usable(&self) -> (ok: bool)
        ensures
            ok == self.usable(),
    {
        self.texture_size >= 1 && self.wall_brick.len() >= 1 && self.wall_stone.len() >= 1
            && self.wall_metal.len() >= 1
    }

    /// The store of three textures of `texture_size` by `texture_size`
    /// samples, or nothing if one of them is not such a square.
    pub fn new(
        wall_brick: Vec<Color>,
        wall_stone: Vec<Color>,
        wall_metal: Vec<Color>,
        texture_size: usize,
    ) -> (store: Option<Textures>)
        ensures
            store.is_some() <==> {
                &&& texture_size >= 1
                &&& wall_brick@.len() == texture_size * texture_size
                &&& wall_stone@.len() == texture_size * texture_size
                &&& wall_metal@.len() == texture_size * texture_size
            },
            store matches Some(t) ==> {
                &&& t.wf()
                &&& t.wall_brick@ == wall_brick@
                &&& t.wall_stone@ == wall_stone@
                &&& t.wall_metal@ == wall_metal@
                &&& t.texture_size == texture_size
            },
    {
        if texture_size < 1 {
            return None;
        }
        assert(texture_size * texture_size <= usize::MAX * usize::MAX) by (nonlinear_arith)
            requires
                0 <= texture_size <= usize::MAX,
        ;
        let area: u128 = (texture_size as u128) * (texture_size as u128);
        if wall_brick.len() as u128 != area || wall_stone.len() as u128 != area
            || wall_metal.len() as u128 != area {
            return None;
        }
        Some(Textures { wall_brick, wall_stone, wall_metal, texture_size })
    }

    /// The texture of a kind of wall. The goal has none of its own and
    /// shares the brick.
    pub open spec fn texture_of(&self, kind: WallKind) -> Seq<Color> {
        match kind {
            WallKind::Stone => self.wall_stone@,
            WallKind::Metal => self.wall_metal@,
            WallKind::Brick => self.wall_brick@,
            WallKind::Upright => self.wall_brick@,
            WallKind::Goal => self.wall_brick@,
        }
    }

    /// The texture of the wall that a symbol stands for; the brick for a
    /// symbol that stands for none.
    pub open spec fn wall_texture(&self, wall_type: char) -> Seq<Color> {
        match WallKind::spec_of_symbol(wall_type) {
            Some(kind) => self.texture_of(kind),
            None => self.wall_brick@,
        }
    }

    /// The texture of the wall that a symbol stands for; the brick for a
    /// symbol that stands for none.
    pub fn get_wall_texture(&self, wall_type: char) -> (texture: &Vec<Color>)
        ensures
            texture@ == self.wall_texture(wall_type),
            self.usable() ==> texture@.len() >= 1,
            self.wf() ==> texture@.len() == self.texture_size * self.texture_size,
    {
        match WallKind::of_symbol(wall_type) {
            Some(WallKind::Stone) => &self.wall_stone,
            Some(WallKind::Metal) => &self.wall_metal,
            _ => &self.wall_brick,
        }
    }

    /// The sample of `texture` for the texel `(x, y)`. Each coordinate is
    /// held within `0..texture_size` before the texture is read.
    pub fn get_texture_pixel(&self, texture: &Vec<Color>, x: usize, y: usize) -> (sample: Color)
        requires
            texture@.len() >= 1,
        ensures
            sample == texture@[sampled_index(
                texture@.len() as int,
                self.texture_size as int,
                x as int,
                y as int,
            )],
    {
        let size = self.texture_size;
        let column = if size < 1 {
            0
        } else if x > size - 1 {
            size - 1
        } else {
            x
        };
        let line = if size < 1 {
            0
        } else if y > size - 1 {
            size - 1
        } else {
            y
        };
        assert(line * size + column <= usize::MAX * usize::MAX + usize::MAX) by (nonlinear_arith)
            requires
                0 <= line <= usize::MAX,
                0 <= size <= usize::MAX,
                0 <= column <= usize::MAX,
        ;
        assert(usize::MAX * usize::MAX + usize::MAX <= u128::MAX) by (nonlinear_arith)
            requires
                usize::MAX <= u64::MAX,
        ;
        let place: u128 = (line as u128) * (size as u128) + (column as u128);
        let last = texture.len() - 1;
        if place < last as u128 {
            texture[place as usize]
        } else {
            texture[last]
        }
    }
}

} // verus!
