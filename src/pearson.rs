//! Pearson permutation tables and the chained lookup over them.
use vstd::prelude::*;

verus! {

/// The Pearson permutation of the standard TLSH (color 0).
pub const PEARSON_TABLE: [u8; 256] = [
    1, 87, 49, 12, 176, 178, 102, 166, 121, 193, 6, 84, 249, 230, 44, 163,
    14, 197, 213, 181, 161, 85, 218, 80, 64, 239, 24, 226, 236, 142, 38, 200,
    110, 177, 104, 103, 141, 253, 255, 50, 77, 101, 81, 18, 45, 96, 31, 222,
    25, 107, 190, 70, 86, 237, 240, 34, 72, 242, 20, 214, 244, 227, 149, 235,
    97, 234, 57, 22, 60, 250, 82, 175, 208, 5, 127, 199, 111, 62, 135, 248,
    174, 169, 211, 58, 66, 154, 106, 195, 245, 171, 17, 187, 182, 179, 0, 243,
    132, 56, 148, 75, 128, 133, 158, 100, 130, 126, 91, 13, 153, 246, 216, 219,
    119, 68, 223, 78, 83, 88, 201, 99, 122, 11, 92, 32, 136, 114, 52, 10,
    138, 30, 48, 183, 156, 35, 61, 26, 143, 74, 251, 94, 129, 162, 63, 152,
    170, 7, 115, 167, 241, 206, 3, 150, 55, 59, 151, 220, 90, 53, 23, 131,
    125, 173, 15, 238, 79, 95, 89, 16, 105, 137, 225, 224, 217, 160, 37, 123,
    118, 73, 2, 157, 46, 116, 9, 145, 134, 228, 207, 212, 202, 215, 69, 229,
    27, 188, 67, 124, 168, 252, 42, 4, 29, 108, 21, 247, 19, 205, 39, 203,
    233, 40, 186, 147, 198, 192, 155, 33, 164, 191, 98, 204, 165, 180, 117, 76,
    140, 36, 210, 172, 41, 54, 159, 8, 185, 232, 113, 196, 231, 47, 146, 120,
    51, 65, 28, 144, 254, 221, 93, 189, 194, 139, 112, 43, 71, 109, 184, 209,
];

/// The permutation of a color: the standard table with its index xor-ed by
/// the color, so that color 0 is the standard table itself.
pub open spec fn color_table(color: u8) -> Seq<u8> {
    Seq::new(256, |i: int| PEARSON_TABLE@[((i as u8) ^ color) as int])
}

/// Three chained lookups of a Pearson table, starting from `salt ^ a`.
pub open spec fn b_map(tab: Seq<u8>, salt: u8, a: u8, b: u8, c: u8) -> u8 {
    tab[(tab[(tab[(salt ^ a) as int] ^ b) as int] ^ c) as int]
}

/// The Pearson table of one color, built once and read afterwards.
#[derive(Clone, Copy)]
pub struct Pearson {
    pub color: u8,
    pub table: [u8; 256],
}

impl Pearson {
    pub open spec fn wf(&self) -> bool {
        self.table@ == color_table(self.color)
    }

    pub fn new(color: u8) -> (r: Pearson)
        ensures
            r.wf(),
            r.color == color,
    {
        let mut table = [0u8; 256];
        let mut i: usize = 0;
        while i < 256
            invariant
                i <= 256,
                forall|k: int| 0 <= k < i ==> table@[k] == color_table(color)[k],
            decreases 256 - i,
        {
            table[i] = PEARSON_TABLE[((i as u8) ^ color) as usize];
            i = i + 1;
        }
        assert(table@ =~= color_table(color));
        Pearson { color, table }
    }

    /// Three chained lookups of this color's table.
    #[inline(always)]
    pub fn fast_b_mapping(&self, salt: u8, a: u8, b: u8, c: u8) -> (r: u8)
        requires
            self.wf(),
        ensures
            r == b_map(color_table(self.color), salt, a, b, c),
    {
        let t = &self.table;
        t[(t[(t[(salt ^ a) as usize] ^ b) as usize] ^ c) as usize]
    }
}

/// Three chained lookups of the standard table, whatever the color.
#[inline(always)]
pub fn p0_fast_b_mapping(salt: u8, a: u8, b: u8, c: u8) -> (r: u8)
    ensures
        r == b_map(color_table(0), salt, a, b, c),
{
    proof {
        assert forall|x: u8| #[trigger] color_table(0)[x as int] == PEARSON_TABLE@[x as int] by {
            assert(x ^ 0u8 == x) by (bit_vector);
        }
    }
    let t = &PEARSON_TABLE;
    t[(t[(t[(salt ^ a) as usize] ^ b) as usize] ^ c) as usize]
}

} // verus!
