//! The table of code points that own a legacy (pre-Unicode) keysym.
//!
//! When typing text, a character whose code point falls in one of these
//! ranges also has a dedicated legacy keysym; the allocator notes the fact
//! but still requests the Unicode-form keysym.  The set is immutable,
//! strictly ordered and free of overlaps.

use vstd::prelude::*;

verus! {

/// How many ranges the table holds.
pub const N_LEGACY_RANGES: usize = 159;

pub open spec fn legacy_range_a(k: int) -> (u16, u16) {
    if k == 0 {
        (0x100, 0x113)
    } else if k == 1 {
        (0x116, 0x12b)
    } else if k == 2 {
        (0x12e, 0x131)
    } else if k == 3 {
        (0x134, 0x13e)
    } else if k == 4 {
        (0x141, 0x148)
    } else if k == 5 {
        (0x14a, 0x14d)
    } else if k == 6 {
        (0x150, 0x173)
    } else if k == 7 {
        (0x178, 0x17e)
    } else if k == 8 {
        (0x192, 0x192)
    } else if k == 9 {
        (0x2c7, 0x2c7)
    } else if k == 10 {
        (0x2d8, 0x2d9)
    } else if k == 11 {
        (0x2db, 0x2db)
    } else if k == 12 {
        (0x2dd, 0x2dd)
    } else if k == 13 {
        (0x385, 0x386)
    } else if k == 14 {
        (0x388, 0x38a)
    } else if k == 15 {
        (0x38c, 0x38c)
    } else if k == 16 {
        (0x38e, 0x3a1)
    } else if k == 17 {
        (0x3a3, 0x3ce)
    } else if k == 18 {
        (0x401, 0x40c)
    } else if k == 19 {
        (0x40e, 0x44f)
    } else if k == 20 {
        (0x451, 0x45c)
    } else if k == 21 {
        (0x45e, 0x45f)
    } else if k == 22 {
        (0x490, 0x491)
    } else if k == 23 {
        (0x5d0, 0x5ea)
    } else if k == 24 {
        (0x60c, 0x60c)
    } else if k == 25 {
        (0x61b, 0x61b)
    } else if k == 26 {
        (0x61f, 0x61f)
    } else if k == 27 {
        (0x621, 0x63a)
    } else if k == 28 {
        (0x640, 0x652)
    } else if k == 29 {
        (0xe01, 0xe3a)
    } else if k == 30 {
        (0xe3f, 0xe4d)
    } else if k == 31 {
        (0xe50, 0xe59)
    } else if k == 32 {
        (0x11a8, 0x11c2)
    } else if k == 33 {
        (0x11eb, 0x11eb)
    } else if k == 34 {
        (0x11f0, 0x11f0)
    } else if k == 35 {
        (0x11f9, 0x11f9)
    } else if k == 36 {
        (0x2002, 0x2005)
    } else if k == 37 {
        (0x2007, 0x200a)
    } else if k == 38 {
        (0x2012, 0x2015)
    } else if k == 39 {
        (0x2017, 0x201a)
    } else {
        (0, 0)
    }
}

pub open spec fn legacy_range_b(k: int) -> (u16, u16) {
    if k == 40 {
        (0x201c, 0x201e)
    } else if k == 41 {
        (0x2020, 0x2022)
    } else if k == 42 {
        (0x2025, 0x2026)
    } else if k == 43 {
        (0x2030, 0x2030)
    } else if k == 44 {
        (0x2032, 0x2033)
    } else if k == 45 {
        (0x2038, 0x2038)
    } else if k == 46 {
        (0x203e, 0x203e)
    } else if k == 47 {
        (0x20a9, 0x20a9)
    } else if k == 48 {
        (0x20ac, 0x20ac)
    } else if k == 49 {
        (0x2105, 0x2105)
    } else if k == 50 {
        (0x2116, 0x2117)
    } else if k == 51 {
        (0x211e, 0x211e)
    } else if k == 52 {
        (0x2122, 0x2122)
    } else if k == 53 {
        (0x2153, 0x215e)
    } else if k == 54 {
        (0x2190, 0x2193)
    } else if k == 55 {
        (0x21d2, 0x21d2)
    } else if k == 56 {
        (0x21d4, 0x21d4)
    } else if k == 57 {
        (0x2202, 0x2202)
    } else if k == 58 {
        (0x2207, 0x2207)
    } else if k == 59 {
        (0x2218, 0x2218)
    } else if k == 60 {
        (0x221a, 0x221a)
    } else if k == 61 {
        (0x221d, 0x221e)
    } else if k == 62 {
        (0x2227, 0x222b)
    } else if k == 63 {
        (0x2234, 0x2234)
    } else if k == 64 {
        (0x223c, 0x223c)
    } else if k == 65 {
        (0x2243, 0x2243)
    } else if k == 66 {
        (0x2260, 0x2261)
    } else if k == 67 {
        (0x2264, 0x2265)
    } else if k == 68 {
        (0x2282, 0x2283)
    } else if k == 69 {
        (0x22a2, 0x22a5)
    } else if k == 70 {
        (0x2308, 0x2308)
    } else if k == 71 {
        (0x230a, 0x230a)
    } else if k == 72 {
        (0x2315, 0x2315)
    } else if k == 73 {
        (0x2320, 0x2321)
    } else if k == 74 {
        (0x2329, 0x232a)
    } else if k == 75 {
        (0x2395, 0x2395)
    } else if k == 76 {
        (0x239b, 0x239b)
    } else if k == 77 {
        (0x239d, 0x239e)
    } else if k == 78 {
        (0x23a0, 0x23a1)
    } else if k == 79 {
        (0x23a3, 0x23a4)
    } else {
        (0, 0)
    }
}

pub open spec fn legacy_range_c(k: int) -> (u16, u16) {
    if k == 80 {
        (0x23a6, 0x23a6)
    } else if k == 81 {
        (0x23a8, 0x23a8)
    } else if k == 82 {
        (0x23ac, 0x23ac)
    } else if k == 83 {
        (0x23b7, 0x23b7)
    } else if k == 84 {
        (0x23ba, 0x23bd)
    } else if k == 85 {
        (0x2409, 0x240d)
    } else if k == 86 {
        (0x2423, 0x2424)
    } else if k == 87 {
        (0x2500, 0x2500)
    } else if k == 88 {
        (0x2502, 0x2502)
    } else if k == 89 {
        (0x250c, 0x250c)
    } else if k == 90 {
        (0x2510, 0x2510)
    } else if k == 91 {
        (0x2514, 0x2514)
    } else if k == 92 {
        (0x2518, 0x2518)
    } else if k == 93 {
        (0x251c, 0x251c)
    } else if k == 94 {
        (0x2524, 0x2524)
    } else if k == 95 {
        (0x252c, 0x252c)
    } else if k == 96 {
        (0x2534, 0x2534)
    } else if k == 97 {
        (0x253c, 0x253c)
    } else if k == 98 {
        (0x2592, 0x2592)
    } else if k == 99 {
        (0x25aa, 0x25af)
    } else if k == 100 {
        (0x25b2, 0x25b3)
    } else if k == 101 {
        (0x25b6, 0x25b7)
    } else if k == 102 {
        (0x25bc, 0x25bd)
    } else if k == 103 {
        (0x25c0, 0x25c1)
    } else if k == 104 {
        (0x25c6, 0x25c6)
    } else if k == 105 {
        (0x25cb, 0x25cb)
    } else if k == 106 {
        (0x25cf, 0x25cf)
    } else if k == 107 {
        (0x25e6, 0x25e6)
    } else if k == 108 {
        (0x2606, 0x2606)
    } else if k == 109 {
        (0x260e, 0x260e)
    } else if k == 110 {
        (0x2613, 0x2613)
    } else if k == 111 {
        (0x261c, 0x261c)
    } else if k == 112 {
        (0x261e, 0x261e)
    } else if k == 113 {
        (0x2640, 0x2640)
    } else if k == 114 {
        (0x2642, 0x2642)
    } else if k == 115 {
        (0x2663, 0x2663)
    } else if k == 116 {
        (0x2665, 0x2666)
    } else if k == 117 {
        (0x266d, 0x266d)
    } else if k == 118 {
        (0x266f, 0x266f)
    } else if k == 119 {
        (0x2713, 0x2713)
    } else {
        (0, 0)
    }
}

pub open spec fn legacy_range_d(k: int) -> (u16, u16) {
    if k == 120 {
        (0x2717, 0x2717)
    } else if k == 121 {
        (0x271d, 0x271d)
    } else if k == 122 {
        (0x2720, 0x2720)
    } else if k == 123 {
        (0x3001, 0x3002)
    } else if k == 124 {
        (0x300c, 0x300d)
    } else if k == 125 {
        (0x309b, 0x309c)
    } else if k == 126 {
        (0x30a1, 0x30ab)
    } else if k == 127 {
        (0x30ad, 0x30ad)
    } else if k == 128 {
        (0x30af, 0x30af)
    } else if k == 129 {
        (0x30b1, 0x30b1)
    } else if k == 130 {
        (0x30b3, 0x30b3)
    } else if k == 131 {
        (0x30b5, 0x30b5)
    } else if k == 132 {
        (0x30b7, 0x30b7)
    } else if k == 133 {
        (0x30b9, 0x30b9)
    } else if k == 134 {
        (0x30bb, 0x30bb)
    } else if k == 135 {
        (0x30bd, 0x30bd)
    } else if k == 136 {
        (0x30bf, 0x30bf)
    } else if k == 137 {
        (0x30c1, 0x30c1)
    } else if k == 138 {
        (0x30c3, 0x30c4)
    } else if k == 139 {
        (0x30c6, 0x30c6)
    } else if k == 140 {
        (0x30c8, 0x30c8)
    } else if k == 141 {
        (0x30ca, 0x30cf)
    } else if k == 142 {
        (0x30d2, 0x30d2)
    } else if k == 143 {
        (0x30d5, 0x30d5)
    } else if k == 144 {
        (0x30d8, 0x30d8)
    } else if k == 145 {
        (0x30db, 0x30db)
    } else if k == 146 {
        (0x30de, 0x30ed)
    } else if k == 147 {
        (0x30ef, 0x30ef)
    } else if k == 148 {
        (0x30f2, 0x30f3)
    } else if k == 149 {
        (0x30fb, 0x30fc)
    } else if k == 150 {
        (0x3131, 0x3163)
    } else if k == 151 {
        (0x316d, 0x316d)
    } else if k == 152 {
        (0x3171, 0x3171)
    } else if k == 153 {
        (0x3178, 0x3178)
    } else if k == 154 {
        (0x317f, 0x317f)
    } else if k == 155 {
        (0x3181, 0x3181)
    } else if k == 156 {
        (0x3184, 0x3184)
    } else if k == 157 {
        (0x3186, 0x3186)
    } else if k == 158 {
        (0x318d, 0x318e)
    } else {
        (0, 0)
    }
}

/// Range number `k` of the table, in increasing order of start.
pub open spec fn legacy_range(k: int) -> (u16, u16) {
    if k < 40 {
        legacy_range_a(k)
    } else if k < 80 {
        legacy_range_b(k)
    } else if k < 120 {
        legacy_range_c(k)
    } else {
        legacy_range_d(k)
    }
}

fn legacy_range_at_a(k: usize) -> (r: (u16, u16))
    requires
        0 <= k < 40,
    ensures
        r == legacy_range_a(k as int),
{
    if k == 0 {
        (0x100, 0x113)
    } else if k == 1 {
        (0x116, 0x12b)
    } else if k == 2 {
        (0x12e, 0x131)
    } else if k == 3 {
        (0x134, 0x13e)
    } else if k == 4 {
        (0x141, 0x148)
    } else if k == 5 {
        (0x14a, 0x14d)
    } else if k == 6 {
        (0x150, 0x173)
    } else if k == 7 {
        (0x178, 0x17e)
    } else if k == 8 {
        (0x192, 0x192)
    } else if k == 9 {
        (0x2c7, 0x2c7)
    } else if k == 10 {
        (0x2d8, 0x2d9)
    } else if k == 11 {
        (0x2db, 0x2db)
    } else if k == 12 {
        (0x2dd, 0x2dd)
    } else if k == 13 {
        (0x385, 0x386)
    } else if k == 14 {
        (0x388, 0x38a)
    } else if k == 15 {
        (0x38c, 0x38c)
    } else if k == 16 {
        (0x38e, 0x3a1)
    } else if k == 17 {
        (0x3a3, 0x3ce)
    } else if k == 18 {
        (0x401, 0x40c)
    } else if k == 19 {
        (0x40e, 0x44f)
    } else if k == 20 {
        (0x451, 0x45c)
    } else if k == 21 {
        (0x45e, 0x45f)
    } else if k == 22 {
        (0x490, 0x491)
    } else if k == 23 {
        (0x5d0, 0x5ea)
    } else if k == 24 {
        (0x60c, 0x60c)
    } else if k == 25 {
        (0x61b, 0x61b)
    } else if k == 26 {
        (0x61f, 0x61f)
    } else if k == 27 {
        (0x621, 0x63a)
    } else if k == 28 {
        (0x640, 0x652)
    } else if k == 29 {
        (0xe01, 0xe3a)
    } else if k == 30 {
        (0xe3f, 0xe4d)
    } else if k == 31 {
        (0xe50, 0xe59)
    } else if k == 32 {
        (0x11a8, 0x11c2)
    } else if k == 33 {
        (0x11eb, 0x11eb)
    } else if k == 34 {
        (0x11f0, 0x11f0)
    } else if k == 35 {
        (0x11f9, 0x11f9)
    } else if k == 36 {
        (0x2002, 0x2005)
    } else if k == 37 {
        (0x2007, 0x200a)
    } else if k == 38 {
        (0x2012, 0x2015)
    } else {
        (0x2017, 0x201a)
    }
}

fn legacy_range_at_b(k: usize) -> (r: (u16, u16))
    requires
        40 <= k < 80,
    ensures
        r == legacy_range_b(k as int),
{
    if k == 40 {
        (0x201c, 0x201e)
    } else if k == 41 {
        (0x2020, 0x2022)
    } else if k == 42 {
        (0x2025, 0x2026)
    } else if k == 43 {
        (0x2030, 0x2030)
    } else if k == 44 {
        (0x2032, 0x2033)
    } else if k == 45 {
        (0x2038, 0x2038)
    } else if k == 46 {
        (0x203e, 0x203e)
    } else if k == 47 {
        (0x20a9, 0x20a9)
    } else if k == 48 {
        (0x20ac, 0x20ac)
    } else if k == 49 {
        (0x2105, 0x2105)
    } else if k == 50 {
        (0x2116, 0x2117)
    } else if k == 51 {
        (0x211e, 0x211e)
    } else if k == 52 {
        (0x2122, 0x2122)
    } else if k == 53 {
        (0x2153, 0x215e)
    } else if k == 54 {
        (0x2190, 0x2193)
    } else if k == 55 {
        (0x21d2, 0x21d2)
    } else if k == 56 {
        (0x21d4, 0x21d4)
    } else if k == 57 {
        (0x2202, 0x2202)
    } else if k == 58 {
        (0x2207, 0x2207)
    } else if k == 59 {
        (0x2218, 0x2218)
    } else if k == 60 {
        (0x221a, 0x221a)
    } else if k == 61 {
        (0x221d, 0x221e)
    } else if k == 62 {
        (0x2227, 0x222b)
    } else if k == 63 {
        (0x2234, 0x2234)
    } else if k == 64 {
        (0x223c, 0x223c)
    } else if k == 65 {
        (0x2243, 0x2243)
    } else if k == 66 {
        (0x2260, 0x2261)
    } else if k == 67 {
        (0x2264, 0x2265)
    } else if k == 68 {
        (0x2282, 0x2283)
    } else if k == 69 {
        (0x22a2, 0x22a5)
    } else if k == 70 {
        (0x2308, 0x2308)
    } else if k == 71 {
        (0x230a, 0x230a)
    } else if k == 72 {
        (0x2315, 0x2315)
    } else if k == 73 {
        (0x2320, 0x2321)
    } else if k == 74 {
        (0x2329, 0x232a)
    } else if k == 75 {
        (0x2395, 0x2395)
    } else if k == 76 {
        (0x239b, 0x239b)
    } else if k == 77 {
        (0x239d, 0x239e)
    } else if k == 78 {
        (0x23a0, 0x23a1)
    } else {
        (0x23a3, 0x23a4)
    }
}

fn legacy_range_at_c(k: usize) -> (r: (u16, u16))
    requires
        80 <= k < 120,
    ensures
        r == legacy_range_c(k as int),
{
    if k == 80 {
        (0x23a6, 0x23a6)
    } else if k == 81 {
        (0x23a8, 0x23a8)
    } else if k == 82 {
        (0x23ac, 0x23ac)
    } else if k == 83 {
        (0x23b7, 0x23b7)
    } else if k == 84 {
        (0x23ba, 0x23bd)
    } else if k == 85 {
        (0x2409, 0x240d)
    } else if k == 86 {
        (0x2423, 0x2424)
    } else if k == 87 {
        (0x2500, 0x2500)
    } else if k == 88 {
        (0x2502, 0x2502)
    } else if k == 89 {
        (0x250c, 0x250c)
    } else if k == 90 {
        (0x2510, 0x2510)
    } else if k == 91 {
        (0x2514, 0x2514)
    } else if k == 92 {
        (0x2518, 0x2518)
    } else if k == 93 {
        (0x251c, 0x251c)
    } else if k == 94 {
        (0x2524, 0x2524)
    } else if k == 95 {
        (0x252c, 0x252c)
    } else if k == 96 {
        (0x2534, 0x2534)
    } else if k == 97 {
        (0x253c, 0x253c)
    } else if k == 98 {
        (0x2592, 0x2592)
    } else if k == 99 {
        (0x25aa, 0x25af)
    } else if k == 100 {
        (0x25b2, 0x25b3)
    } else if k == 101 {
        (0x25b6, 0x25b7)
    } else if k == 102 {
        (0x25bc, 0x25bd)
    } else if k == 103 {
        (0x25c0, 0x25c1)
    } else if k == 104 {
        (0x25c6, 0x25c6)
    } else if k == 105 {
        (0x25cb, 0x25cb)
    } else if k == 106 {
        (0x25cf, 0x25cf)
    } else if k == 107 {
        (0x25e6, 0x25e6)
    } else if k == 108 {
        (0x2606, 0x2606)
    } else if k == 109 {
        (0x260e, 0x260e)
    } else if k == 110 {
        (0x2613, 0x2613)
    } else if k == 111 {
        (0x261c, 0x261c)
    } else if k == 112 {
        (0x261e, 0x261e)
    } else if k == 113 {
        (0x2640, 0x2640)
    } else if k == 114 {
        (0x2642, 0x2642)
    } else if k == 115 {
        (0x2663, 0x2663)
    } else if k == 116 {
        (0x2665, 0x2666)
    } else if k == 117 {
        (0x266d, 0x266d)
    } else if k == 118 {
        (0x266f, 0x266f)
    } else {
        (0x2713, 0x2713)
    }
}

fn legacy_range_at_d(k: usize) -> (r: (u16, u16))
    requires
        120 <= k < 159,
    ensures
        r == legacy_range_d(k as int),
{
    if k == 120 {
        (0x2717, 0x2717)
    } else if k == 121 {
        (0x271d, 0x271d)
    } else if k == 122 {
        (0x2720, 0x2720)
    } else if k == 123 {
        (0x3001, 0x3002)
    } else if k == 124 {
        (0x300c, 0x300d)
    } else if k == 125 {
        (0x309b, 0x309c)
    } else if k == 126 {
        (0x30a1, 0x30ab)
    } else if k == 127 {
        (0x30ad, 0x30ad)
    } else if k == 128 {
        (0x30af, 0x30af)
    } else if k == 129 {
        (0x30b1, 0x30b1)
    } else if k == 130 {
        (0x30b3, 0x30b3)
    } else if k == 131 {
        (0x30b5, 0x30b5)
    } else if k == 132 {
        (0x30b7, 0x30b7)
    } else if k == 133 {
        (0x30b9, 0x30b9)
    } else if k == 134 {
        (0x30bb, 0x30bb)
    } else if k == 135 {
        (0x30bd, 0x30bd)
    } else if k == 136 {
        (0x30bf, 0x30bf)
    } else if k == 137 {
        (0x30c1, 0x30c1)
    } else if k == 138 {
        (0x30c3, 0x30c4)
    } else if k == 139 {
        (0x30c6, 0x30c6)
    } else if k == 140 {
        (0x30c8, 0x30c8)
    } else if k == 141 {
        (0x30ca, 0x30cf)
    } else if k == 142 {
        (0x30d2, 0x30d2)
    } else if k == 143 {
        (0x30d5, 0x30d5)
    } else if k == 144 {
        (0x30d8, 0x30d8)
    } else if k == 145 {
        (0x30db, 0x30db)
    } else if k == 146 {
        (0x30de, 0x30ed)
    } else if k == 147 {
        (0x30ef, 0x30ef)
    } else if k == 148 {
        (0x30f2, 0x30f3)
    } else if k == 149 {
        (0x30fb, 0x30fc)
    } else if k == 150 {
        (0x3131, 0x3163)
    } else if k == 151 {
        (0x316d, 0x316d)
    } else if k == 152 {
        (0x3171, 0x3171)
    } else if k == 153 {
        (0x3178, 0x3178)
    } else if k == 154 {
        (0x317f, 0x317f)
    } else if k == 155 {
        (0x3181, 0x3181)
    } else if k == 156 {
        (0x3184, 0x3184)
    } else if k == 157 {
        (0x3186, 0x3186)
    } else {
        (0x318d, 0x318e)
    }
}

/// Range number `k` of the table.
pub fn legacy_range_at(k: usize) -> (r: (u16, u16))
    requires
        k < N_LEGACY_RANGES,
    ensures
        r == legacy_range(k as int),
{
    if k < 40 {
        legacy_range_at_a(k)
    } else if k < 80 {
        legacy_range_at_b(k)
    } else if k < 120 {
        legacy_range_at_c(k)
    } else {
        legacy_range_at_d(k)
    }
}

/// The set of code points with a legacy keysym, as a searchable table.
pub struct SpecUni {
    pub ranges: Vec<(u16, u16)>,
}

impl SpecUni {
    /// The table holds exactly the fixed ranges.
    pub open spec fn wf(self) -> bool {
        &&& self.ranges@.len() == N_LEGACY_RANGES
        &&& forall|k: int|
            0 <= k < N_LEGACY_RANGES ==> #[trigger] self.ranges@[k] == legacy_range(k)
    }

    /// Builds the table.
    pub fn new() -> (r: Self)
        ensures
            r.wf(),
    {
        let mut v: Vec<(u16, u16)> = Vec::new();
        let mut k: usize = 0;
        while k < N_LEGACY_RANGES
            invariant
                k <= N_LEGACY_RANGES,
                v@.len() == k,
                forall|j: int| 0 <= j < k ==> #[trigger] v@[j] == legacy_range(j),
            decreases N_LEGACY_RANGES - k,
        {
            v.push(legacy_range_at(k));
            k += 1;
        }
        SpecUni { ranges: v }
    }

    /// Whether `uni` has a legacy keysym: membership in the union of the
    /// table's inclusive ranges.
    pub fn contains(&self, uni: u16) -> (r: bool)
        requires
            self.wf(),
        ensures
            r <==> exists|k: int|
                0 <= k < N_LEGACY_RANGES && (#[trigger] legacy_range(k)).0 <= uni
                    <= legacy_range(k).1,
    {
        let n = self.ranges.len();
        let mut i: usize = 0;
        while i < n
            invariant
                self.wf(),
                i <= n,
                n == N_LEGACY_RANGES,
                forall|k: int|
                    0 <= k < i ==> !((#[trigger] legacy_range(k)).0 <= uni <= legacy_range(
                        k,
                    ).1),
            decreases n - i,
        {
            let (b, e) = self.ranges[i];
            if b <= uni && uni <= e {
                proof {
                    assert(legacy_range(i as int).0 <= uni <= legacy_range(i as int).1);
                }
                return true;
            }
            i += 1;
        }
        false
    }
}

} // verus!
