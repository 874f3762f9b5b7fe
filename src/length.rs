//! The logarithmic length byte.
use vstd::prelude::*;

verus! {

/// Fewest bytes a digest is computed from.
pub const MIN_DATA_LENGTH: usize = 50;

/// Upper bound of each length class of the standard TLSH: a length `n`
/// is encoded as the first index `i` with `n <= TOPVAL[i]`.
pub const TOPVAL: [u32; 171] = [
    1, 2, 3, 5, 7, 11, 17, 25,
    38, 57, 86, 129, 194, 291, 437, 656,
    854, 1110, 1443, 1876, 2439, 3171, 3475, 3823,
    4205, 4626, 5088, 5597, 6157, 6772, 7450, 8195,
    9014, 9916, 10907, 11998, 13198, 14518, 15970, 17567,
    19323, 21256, 23382, 25720, 28292, 31121, 34233, 37656,
    41422, 45564, 50121, 55133, 60646, 66711, 73382, 80721,
    88793, 97672, 107439, 118183, 130002, 143002, 157302, 173032,
    190335, 209369, 230306, 253336, 278670, 306538, 337191, 370911,
    408002, 448802, 493682, 543050, 597356, 657091, 722800, 795081,
    874589, 962048, 1058252, 1164078, 1280486, 1408534, 1549388, 1704327,
    1874759, 2062236, 2268459, 2495305, 2744836, 3019320, 3321252, 3653374,
    4018711, 4420582, 4862641, 5348905, 5883796, 6472176, 7119394, 7831333,
    8614467, 9475909, 10423501, 11465851, 12612437, 13873681, 15261050, 16787154,
    18465870, 20312458, 22343706, 24578077, 27035886, 29739474, 32713425, 35984769,
    39583245, 43541573, 47895730, 52685306, 57953837, 63749221, 70124148, 77136564,
    84850228, 93335252, 102668779, 112935659, 124229227, 136652151, 150317384, 165349128,
    181884040, 200072456, 220079703, 242087671, 266296456, 292926096, 322218735, 354440623,
    389884688, 428873168, 471760495, 518936559, 570830240, 627913311, 690704607, 759775136,
    835752671, 919327967, 1011260767, 1112386880, 1223623232, 1345983648, 1480582304, 1628640832,
    1791504928, 1970655136, 2167720864, 2384492800, 2622942208, 2885236736, 3173760512, 3491136768,
    3840250880, 4224275968, 4294967295,
];

/// The length class of `len` searched from index `i` on.
pub open spec fn lvalue_from(len: nat, i: nat) -> u8
    decreases 170 - i,
{
    if i >= 170 || len <= TOPVAL@[i as int] {
        i as u8
    } else {
        lvalue_from(len, i + 1)
    }
}

/// The logarithmic length byte of a stream of `len` bytes, or `None` when
/// `len` is below the minimum or above the largest class.
pub open spec fn lvalue_of(len: nat) -> Option<u8> {
    if len < MIN_DATA_LENGTH || len > TOPVAL@[170] {
        None
    } else {
        Some(lvalue_from(len, 0))
    }
}

/// Encodes a stream length as its length class.
pub fn calc_lvalue(len: usize) -> (r: Option<u8>)
    ensures
        r == lvalue_of(len as nat),
{
    if len < MIN_DATA_LENGTH || len > TOPVAL[170] as usize {
        return None;
    }
    let mut i: usize = 0;
    while i < 170 && len > TOPVAL[i] as usize
        invariant
            i <= 170,
            lvalue_from(len as nat, i as nat) == lvalue_from(len as nat, 0),
        decreases 170 - i,
    {
        i = i + 1;
    }
    Some(i as u8)
}

} // verus!
