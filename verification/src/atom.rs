use vstd::prelude::*;
use rand::Rng;

verus! {

/// One cell of the world.
#[derive(Clone, Copy, Debug, PartialEq, Eq)]
pub struct Atom {
    pub color: [u8; 4],
    pub id: u8,
    pub moving: bool,
    pub speed: (i8, i8),
    /// Frames idle
    pub f_idle: u8,
    pub updated_at: u8,
}

/// The empty atom: every field zero.
pub open spec fn default_atom() -> Atom {
    Atom { color: [0u8, 0u8, 0u8, 0u8], id: 0, moving: false, speed: (0i8, 0i8), f_idle: 0, updated_at: 0 }
}

impl Default for Atom {
    fn default() -> (r: Atom)
        ensures
            r == default_atom(),
    {
        Atom { color: [0, 0, 0, 0], id: 0, moving: false, speed: (0, 0), f_idle: 0, updated_at: 0 }
    }
}

/// The atom that marks a cell taken by an actor or a rigidbody: id 1, every
/// other field zero.
pub open spec fn object_atom() -> Atom {
    Atom { id: 1, ..default_atom() }
}

/// Base colour and spread of each colour channel of the atoms that
/// `Atom::new` makes, and their alpha: `(bases, spreads, alpha)`.
pub open spec fn palette(id: u8) -> ((int, int, int), (int, int, int), u8) {
    if id == 2 {
        // Sand
        ((230, 197, 92), (20, 20, 20), 255)
    } else if id == 3 {
        // Water
        ((20, 125, 204), (20, 20, 20), 150)
    } else if id == 4 {
        // Gravel
        ((110, 110, 110), (12, 12, 12), 255)
    } else if id == 5 {
        // Lava
        ((245, 140, 10), (10, 20, 10), 255)
    } else if id == 6 {
        // Grass
        ((30, 170, 10), (10, 10, 5), 255)
    } else if id == 7 {
        // Dirt
        ((120, 70, 40), (10, 10, 5), 255)
    } else if id == 8 {
        // Rock
        ((80, 80, 80), (10, 10, 5), 255)
    } else {
        // Acid
        ((10, 230, 40), (10, 10, 5), 255)
    }
}

/// A colour channel drawn from `base - spread .. base + spread`.
pub open spec fn channel_ok(c: u8, base: int, spread: int) -> bool {
    base - spread <= c < base + spread
}

/// `color` is one that `Atom::new(id)` may give.
pub open spec fn color_of_kind(id: u8, color: [u8; 4]) -> bool {
    let (b, s, a) = palette(id);
    &&& channel_ok(color[0], b.0, s.0)
    &&& channel_ok(color[1], b.1, s.1)
    &&& channel_ok(color[2], b.2, s.2)
    &&& color[3] == a
}

/// `rand::Rng::random_range` on the thread generator for `i16`: a value drawn
/// from `lo..hi`. Which value comes out is left open; that it lies in the
/// range is what rand documents.
#[verifier::external_body]
fn random_range_i16(lo: i16, hi: i16) -> (r: i16)
    requires
        lo < hi,
    ensures
        lo <= r < hi,
{
    rand::rng().random_range(lo..hi)
}

/// The colour channel `base + d`.
pub fn shade_with(base: i16, d: i16) -> (c: u8)
    requires
        0 <= base + d < 256,
    ensures
        c == base + d,
{
    (base + d) as u8
}

/// The offsets `d` lie in the ranges that `Atom::new(id)` draws them from.
pub open spec fn offsets_ok(id: u8, d: (i16, i16, i16)) -> bool {
    let (b, s, a) = palette(id);
    &&& -s.0 <= d.0 < s.0
    &&& -s.1 <= d.1 < s.1
    &&& -s.2 <= d.2 < s.2
}

/// The colour of an atom of kind `id` whose channels were moved by the
/// offsets `d` from the colour of its kind.
pub open spec fn shaded_color(id: u8, d: (i16, i16, i16)) -> [u8; 4] {
    let (b, s, a) = palette(id);
    [(b.0 + d.0) as u8, (b.1 + d.1) as u8, (b.2 + d.2) as u8, a]
}

/// The spreads of the colour channels of kind `id`.
fn spreads(id: u8) -> (r: (i16, i16, i16))
    requires
        2 <= id <= 9,
    ensures
        r.0 == palette(id).1.0,
        r.1 == palette(id).1.1,
        r.2 == palette(id).1.2,
{
    match id {
        2 | 3 => (20, 20, 20),
        4 => (12, 12, 12),
        5 => (10, 20, 10),
        _ => (10, 10, 5),
    }
}

impl Atom {
    pub fn object() -> (r: Self)
        ensures
            r == object_atom(),
    {
        Atom {
            id: 1,
            //color: [255, 255, 255, 255],
            ..Default::default()
        }
    }

    /// A fresh atom of kind `id` (2 to 9) whose colour channels are those of
    /// its kind moved by the offsets `d`.
    pub fn new_with(id: u8, d: (i16, i16, i16)) -> (atom: Atom)
        requires
            2 <= id <= 9,
            offsets_ok(id, d),
        ensures
            atom == (Atom { color: shaded_color(id, d), id, ..default_atom() }),
    {
        let mut atom = Atom {
            id,
            ..Default::default()
        };

        //Change color and material, etc
        match id {
            2 => {
                //Sand
                atom.color = [shade_with(230, d.0), shade_with(197, d.1), shade_with(92, d.2), 255];
            },
            3 => {
                //Water
                atom.color = [shade_with(20, d.0), shade_with(125, d.1), shade_with(204, d.2), 150];
            },
            4 => {
                //Gravel
                atom.color = [shade_with(110, d.0), shade_with(110, d.1), shade_with(110, d.2), 255];
            },
            5 => {
                //Lava
                atom.color = [shade_with(245, d.0), shade_with(140, d.1), shade_with(10, d.2), 255];
            },
            6 => {
                //Grass
                atom.color = [shade_with(30, d.0), shade_with(170, d.1), shade_with(10, d.2), 255];
            },
            7 => {
                //Dirt
                atom.color = [shade_with(120, d.0), shade_with(70, d.1), shade_with(40, d.2), 255];
            },
            8 => {
                //Rock
                atom.color = [shade_with(80, d.0), shade_with(80, d.1), shade_with(80, d.2), 255];
            },
            _ => {
                //Acid
                atom.color = [shade_with(10, d.0), shade_with(230, d.1), shade_with(40, d.2), 255];
            },
        }

        atom
    }

    /// A fresh atom of kind `id` (2 to 9) with a colour drawn around the colour
    /// of its kind: an offset is drawn for each channel, and the atom is
    /// `new_with` those offsets.
    pub fn new(id: u8) -> (atom: Atom)
        requires
            2 <= id <= 9,
        ensures
            exists|d: (i16, i16, i16)| offsets_ok(id, d) && atom == #[trigger] Atom::spec_new_with(id, d),
            atom == (Atom { color: atom.color, id, ..default_atom() }),
            color_of_kind(id, atom.color),
    {
        let s = spreads(id);
        let d0 = random_range_i16(-s.0, s.0);
        let d1 = random_range_i16(-s.1, s.1);
        let d2 = random_range_i16(-s.2, s.2);
        let d = (d0, d1, d2);
        let atom = Atom::new_with(id, d);
        proof {
            assert(atom == Atom::spec_new_with(id, d));
        }
        atom
    }

    /// The atom that `new_with(id, d)` makes.
    pub open spec fn spec_new_with(id: u8, d: (i16, i16, i16)) -> Atom {
        Atom { color: shaded_color(id, d), id, ..default_atom() }
    }
}

} // verus!
