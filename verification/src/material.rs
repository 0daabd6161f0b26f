use vstd::prelude::*;

verus! {

/// The fabrics the simulation knows.
#[derive(Clone, Copy, Debug, PartialEq, Eq, Structural)]
pub enum MaterialKind {
    Silk,
    Cotton,
    Canvas,
    Nylon,
    Rubber,
}

impl MaterialKind {
    /// The fabric a numeric id selects: 0 silk, 2 canvas, 3 nylon, 4 rubber, any other id
    /// cotton.
    pub fn from_id(id: u8) -> (k: MaterialKind)
        ensures
            k == (if id == 0 {
                MaterialKind::Silk
            } else if id == 2 {
                MaterialKind::Canvas
            } else if id == 3 {
                MaterialKind::Nylon
            } else if id == 4 {
                MaterialKind::Rubber
            } else {
                MaterialKind::Cotton
            }),
    {
        match id {
            0 => MaterialKind::Silk,
            2 => MaterialKind::Canvas,
            3 => MaterialKind::Nylon,
            4 => MaterialKind::Rubber,
            _ => MaterialKind::Cotton,
        }
    }
}

} // verus!
