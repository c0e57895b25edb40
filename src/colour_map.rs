//! Colouring terrain by height: a list of thresholds and their colours.

use crate::vec3::Vec3;
use vstd::prelude::*;

verus! {

/// A threshold and the colour of heights from it upward.
#[derive(Debug, Clone, Copy, PartialEq, Eq, Structural)]
pub struct ColourData {
    pub cutoff: i64,
    pub colour: Vec3,
}

pub struct ColourMap {
    pub colour_vec: Vec<ColourData>,
    pub default_colour: Vec3,
}

/// Entry `i` has the highest threshold at or below `value`, and is the first
/// such entry.
pub open spec fn is_best_entry(entries: Seq<ColourData>, value: int, i: int) -> bool {
    &&& 0 <= i < entries.len()
    &&& entries[i].cutoff <= value
    &&& forall|j: int| 0 <= j < entries.len() && entries[j].cutoff <= value ==> #[trigger] entries[j].cutoff <= entries[i].cutoff
    &&& forall|j: int| 0 <= j < i && entries[j].cutoff <= value ==> #[trigger] entries[j].cutoff < entries[i].cutoff
}

/// Index of the chosen entry among the first `n`, scanning in order and
/// keeping an entry only if its threshold is at or below `value` and above
/// that of the entry kept so far.
pub open spec fn best_upto(entries: Seq<ColourData>, value: int, n: int) -> Option<int>
    decreases n,
{
    if n <= 0 {
        None
    } else {
        let prev = best_upto(entries, value, n - 1);
        let c = entries[n - 1].cutoff;
        if c <= value && (prev is None || c > entries[prev.unwrap()].cutoff) {
            Some(n - 1)
        } else {
            prev
        }
    }
}

/// The colour a map gives `value`.
pub open spec fn colour_lookup(entries: Seq<ColourData>, default: Vec3, value: int) -> Vec3 {
    match best_upto(entries, value, entries.len() as int) {
        None => default,
        Some(b) => entries[b].colour,
    }
}

impl ColourMap {
    pub fn new(colour_data: Vec<ColourData>, default_colour: Vec3) -> (r: ColourMap)
        ensures
            r.colour_vec@ == colour_data@,
            r.default_colour == default_colour,
    {
        ColourMap { colour_vec: colour_data, default_colour }
    }

    /// Snow, rock, grass, forest and shallow water above deep water.
    pub fn new_default() -> (r: ColourMap)
        ensures
            r.colour_vec@ == seq![
                ColourData { cutoff: 49152, colour: Vec3 { x: 65536, y: 65536, z: 65536 } },
                ColourData { cutoff: 13107, colour: Vec3 { x: 26214, y: 32768, z: 32768 } },
                ColourData { cutoff: -16384i64, colour: Vec3 { x: 13107, y: 58982, z: 26214 } },
                ColourData { cutoff: -36045i64, colour: Vec3 { x: 6554, y: 39322, z: 13107 } },
                ColourData { cutoff: -45875i64, colour: Vec3 { x: 3277, y: 19661, z: 55706 } },
            ],
            r.default_colour == (Vec3 { x: 3277, y: 9830, z: 39322 }),
    {
        let colours = vec![
            ColourData { cutoff: 49152, colour: Vec3::new(65536, 65536, 65536) },
            ColourData { cutoff: 13107, colour: Vec3::new(26214, 32768, 32768) },
            ColourData { cutoff: -16384, colour: Vec3::new(13107, 58982, 26214) },
            ColourData { cutoff: -36045, colour: Vec3::new(6554, 39322, 13107) },
            ColourData { cutoff: -45875, colour: Vec3::new(3277, 19661, 55706) },
        ];
        ColourMap { colour_vec: colours, default_colour: Vec3::new(3277, 9830, 39322) }
    }

    /// The colour of the highest threshold at or below `value` (the first
    /// such entry on a tie), or the default colour when every threshold lies
    /// above `value`.
    pub fn to_colour(&self, value: i64) -> (r: Vec3)
        ensures
            r == colour_lookup(self.colour_vec@, self.default_colour, value as int),
            (forall|j: int| 0 <= j < self.colour_vec@.len() ==> #[trigger] self.colour_vec@[j].cutoff > value) ==> r
                == self.default_colour,
            (exists|j: int| 0 <= j < self.colour_vec@.len() && #[trigger] self.colour_vec@[j].cutoff <= value) ==> exists|i: int|
                is_best_entry(self.colour_vec@, value as int, i) && r == #[trigger] self.colour_vec@[i].colour,
    {
        let entries = &self.colour_vec;
        let mut best: Option<usize> = None;
        let mut i: usize = 0;
        while i < entries.len()
            invariant
                i <= entries@.len(),
                entries == &self.colour_vec,
                best_upto(entries@, value as int, i as int) == match best {
                    None => None,
                    Some(b) => Some(b as int),
                },
                match best {
                    None => forall|j: int| 0 <= j < i ==> #[trigger] entries@[j].cutoff > value,
                    Some(b) => b < i && is_best_entry(entries@.take(i as int), value as int, b as int),
                },
            decreases entries@.len() - i,
        {
            let c = entries[i].cutoff;
            if c <= value {
                match best {
                    None => {
                        best = Some(i);
                    },
                    Some(b) => {
                        if c > entries[b].cutoff {
                            best = Some(i);
                        }
                    },
                }
            }
            proof {
                let t = entries@.take(i as int + 1);
                assert forall|j: int| 0 <= j < i + 1 implies #[trigger] t[j] == entries@[j] by {}
            }
            i = i + 1;
        }
        proof {
            assert(entries@.take(entries@.len() as int) =~= entries@);
        }
        match best {
            None => self.default_colour,
            Some(b) => entries[b].colour,
        }
    }
}

} // verus!
