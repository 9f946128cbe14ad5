//! The shape catalog: the seven piece shapes, their precomputed rotation
//! states, and the color/texture id of each shape.
//!
//! Each rotation state is a set of four cell positions inside a 4x4
//! bounding box.  A position `p` in `0..16` stands for the box cell
//! `(p % 4, p / 4)`.  The tables are fixed data; rotating is index
//! arithmetic modulo 4 against them, with no runtime geometry.

use vstd::prelude::*;

verus! {

/// One of the seven piece shapes.
#[derive(Debug, Copy, Clone, PartialEq, Eq, Structural)]
pub enum Shape {
    I,
    T,
    L,
    J,
    S,
    Z,
    O,
}

/// A rotation direction: `Right` is clockwise, `Left` counter-clockwise.
#[derive(Debug, Copy, Clone, PartialEq, Eq, Structural)]
pub enum Rotation {
    Right,
    Left,
}

/// The four box positions (each in `0..16`) that `shape` occupies in
/// rotation state `angle`.
pub open spec fn spec_cells(shape: Shape, angle: int) -> Seq<int> {
    match shape {
        Shape::I => {
            if angle == 0 {
                seq![4, 5, 6, 7]
            } else if angle == 1 {
                seq![2, 6, 10, 14]
            } else if angle == 2 {
                seq![8, 9, 10, 11]
            } else {
                seq![1, 5, 9, 13]
            }
        },
        Shape::J => {
            if angle == 0 {
                seq![0, 4, 5, 6]
            } else if angle == 1 {
                seq![1, 2, 5, 9]
            } else if angle == 2 {
                seq![4, 5, 6, 10]
            } else {
                seq![1, 5, 8, 9]
            }
        },
        Shape::L => {
            if angle == 0 {
                seq![3, 5, 6, 7]
            } else if angle == 1 {
                seq![2, 6, 10, 11]
            } else if angle == 2 {
                seq![5, 6, 7, 9]
            } else {
                seq![1, 2, 6, 10]
            }
        },
        Shape::O => seq![2, 3, 6, 7],
        Shape::S => {
            if angle == 0 {
                seq![2, 3, 5, 6]
            } else if angle == 1 {
                seq![2, 6, 7, 11]
            } else if angle == 2 {
                seq![6, 7, 9, 10]
            } else {
                seq![1, 5, 6, 10]
            }
        },
        Shape::Z => {
            if angle == 0 {
                seq![0, 1, 5, 6]
            } else if angle == 1 {
                seq![2, 5, 6, 9]
            } else if angle == 2 {
                seq![4, 5, 9, 10]
            } else {
                seq![1, 4, 5, 8]
            }
        },
        Shape::T => {
            if angle == 0 {
                seq![1, 4, 5, 6]
            } else if angle == 1 {
                seq![1, 5, 6, 9]
            } else if angle == 2 {
                seq![4, 5, 6, 9]
            } else {
                seq![1, 4, 5, 9]
            }
        },
    }
}

impl Shape {
    /// The cell positions of this shape in its default rotation state.
    pub fn matrix(&self) -> (r: [u8; 4])
        ensures
            forall|i: int| 0 <= i < 4 ==> r[i] as int == spec_cells(*self, 0)[i],
    {
        match self {
            Shape::I => [4, 5, 6, 7],
            Shape::J => [0, 4, 5, 6],
            Shape::L => [3, 5, 6, 7],
            Shape::O => [2, 3, 6, 7],
            Shape::S => [2, 3, 5, 6],
            Shape::Z => [0, 1, 5, 6],
            Shape::T => [1, 4, 5, 6],
        }
    }

    /// The cell positions of this shape in rotation state `angle`.
    pub fn rotation_cells(&self, angle: u8) -> (r: [u8; 4])
        requires
            angle < 4,
        ensures
            forall|i: int| 0 <= i < 4 ==> r[i] as int == spec_cells(*self, angle as int)[i],
    {
        match self {
            Shape::I => {
                match angle {
                    0 => [4, 5, 6, 7],
                    1 => [2, 6, 10, 14],
                    2 => [8, 9, 10, 11],
                    _ => [1, 5, 9, 13],
                }
            },
            Shape::J => {
                match angle {
                    0 => [0, 4, 5, 6],
                    1 => [1, 2, 5, 9],
                    2 => [4, 5, 6, 10],
                    _ => [1, 5, 8, 9],
                }
            },
            Shape::L => {
                match angle {
                    0 => [3, 5, 6, 7],
                    1 => [2, 6, 10, 11],
                    2 => [5, 6, 7, 9],
                    _ => [1, 2, 6, 10],
                }
            },
            Shape::O => [2, 3, 6, 7],
            Shape::S => {
                match angle {
                    0 => [2, 3, 5, 6],
                    1 => [2, 6, 7, 11],
                    2 => [6, 7, 9, 10],
                    _ => [1, 5, 6, 10],
                }
            },
            Shape::Z => {
                match angle {
                    0 => [0, 1, 5, 6],
                    1 => [2, 5, 6, 9],
                    2 => [4, 5, 9, 10],
                    _ => [1, 4, 5, 8],
                }
            },
            Shape::T => {
                match angle {
                    0 => [1, 4, 5, 6],
                    1 => [1, 5, 6, 9],
                    2 => [4, 5, 6, 9],
                    _ => [1, 4, 5, 9],
                }
            },
        }
    }

    /// The color/texture id of this shape.
    pub open spec fn spec_texture_offset(self) -> u8 {
        match self {
            Shape::I => 90,
            Shape::J => 0,
            Shape::L => 108,
            Shape::O => 72,
            Shape::S => 54,
            Shape::Z => 36,
            Shape::T => 18,
        }
    }

    /// The shift into the tile texture strip that selects this shape's color.
    pub fn texture_offset(&self) -> (r: u8)
        ensures
            r == self.spec_texture_offset(),
    {
        match self {
            Shape::I => 90,
            Shape::J => 0,
            Shape::L => 108,
            Shape::O => 72,
            Shape::S => 54,
            Shape::Z => 36,
            Shape::T => 18,
        }
    }
}

/// The shape drawn for index `i`; used to turn a random draw in `0..7`
/// into a shape.
pub open spec fn spec_shape_from_index(i: int) -> Shape {
    if i == 0 {
        Shape::I
    } else if i == 1 {
        Shape::T
    } else if i == 2 {
        Shape::L
    } else if i == 3 {
        Shape::J
    } else if i == 4 {
        Shape::S
    } else if i == 5 {
        Shape::Z
    } else {
        Shape::O
    }
}

/// Maps an index in `0..7` to a shape, one index per shape.
pub fn shape_from_index(i: u32) -> (r: Shape)
    ensures
        r == spec_shape_from_index(i as int),
{
    match i {
        0 => Shape::I,
        1 => Shape::T,
        2 => Shape::L,
        3 => Shape::J,
        4 => Shape::S,
        5 => Shape::Z,
        _ => Shape::O,
    }
}

/// Every position in a rotation table lies inside the 4x4 box.
pub proof fn lemma_cells_in_box(shape: Shape, angle: int)
    requires
        0 <= angle < 4,
    ensures
        spec_cells(shape, angle).len() == 4,
        forall|i: int| 0 <= i < 4 ==> 0 <= #[trigger] spec_cells(shape, angle)[i] < 16,
{
}

/// The four positions of a rotation state are pairwise distinct.
pub proof fn lemma_cells_distinct(shape: Shape, angle: int)
    requires
        0 <= angle < 4,
    ensures
        forall|i: int, j: int|
            0 <= i < 4 && 0 <= j < 4 && i != j ==> spec_cells(shape, angle)[i] != spec_cells(
                shape,
                angle,
            )[j],
{
}

} // verus!
