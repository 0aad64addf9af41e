//! The 256 headings of a unit (0 = north, 64 = east, 128 = south, 192 = west)
//! and their unit vectors.
use vstd::prelude::*;
use crate::fp8::Fp8;

verus! {

/// X components of the heading unit vectors, in fp8 (256 = 1.0), by heading.
pub const DIRECTION_TABLE_X: [i16; 256] = [
    0, 6, 13, 19, 25, 31, 38, 44, 50, 56, 62, 68, 74, 80, 86, 92, 98, 104, 109, 115, 121, 126,
    132, 137, 142, 147, 152, 157, 162, 167, 172, 177, 181, 185, 190, 194, 198, 202, 206, 209, 213,
    216, 220, 223, 226, 229, 231, 234, 237, 239, 241, 243, 245, 247, 248, 250, 251, 252, 253, 254,
    255, 255, 256, 256, 256, 256, 256, 255, 255, 254, 253, 252, 251, 250, 248, 247, 245, 243, 241,
    239, 237, 234, 231, 229, 226, 223, 220, 216, 213, 209, 206, 202, 198, 194, 190, 185, 181, 177,
    172, 167, 162, 157, 152, 147, 142, 137, 132, 126, 121, 115, 109, 104, 98, 92, 86, 80, 74, 68,
    62, 56, 50, 44, 38, 31, 25, 19, 13, 6, 0, -6, -13, -19, -25, -31, -38, -44, -50, -56, -62,
    -68, -74, -80, -86, -92, -98, -104, -109, -115, -121, -126, -132, -137, -142, -147, -152,
    -157, -162, -167, -172, -177, -181, -185, -190, -194, -198, -202, -206, -209, -213, -216,
    -220, -223, -226, -229, -231, -234, -237, -239, -241, -243, -245, -247, -248, -250, -251,
    -252, -253, -254, -255, -255, -256, -256, -256, -256, -256, -255, -255, -254, -253, -252,
    -251, -250, -248, -247, -245, -243, -241, -239, -237, -234, -231, -229, -226, -223, -220,
    -216, -213, -209, -206, -202, -198, -194, -190, -185, -181, -177, -172, -167, -162, -157,
    -152, -147, -142, -137, -132, -126, -121, -115, -109, -104, -98, -92, -86, -80, -74, -68, -62,
    -56, -50, -44, -38, -31, -25, -19, -13, -6,
];

/// Y components of the heading unit vectors, in fp8 (256 = 1.0), by heading.
pub const DIRECTION_TABLE_Y: [i16; 256] = [
    -256, -256, -256, -255, -255, -254, -253, -252, -251, -250, -248, -247, -245, -243, -241,
    -239, -237, -234, -231, -229, -226, -223, -220, -216, -213, -209, -206, -202, -198, -194,
    -190, -185, -181, -177, -172, -167, -162, -157, -152, -147, -142, -137, -132, -126, -121,
    -115, -109, -104, -98, -92, -86, -80, -74, -68, -62, -56, -50, -44, -38, -31, -25, -19, -13,
    -6, 0, 6, 13, 19, 25, 31, 38, 44, 50, 56, 62, 68, 74, 80, 86, 92, 98, 104, 109, 115, 121, 126,
    132, 137, 142, 147, 152, 157, 162, 167, 172, 177, 181, 185, 190, 194, 198, 202, 206, 209, 213,
    216, 220, 223, 226, 229, 231, 234, 237, 239, 241, 243, 245, 247, 248, 250, 251, 252, 253, 254,
    255, 255, 256, 256, 256, 256, 256, 255, 255, 254, 253, 252, 251, 250, 248, 247, 245, 243, 241,
    239, 237, 234, 231, 229, 226, 223, 220, 216, 213, 209, 206, 202, 198, 194, 190, 185, 181, 177,
    172, 167, 162, 157, 152, 147, 142, 137, 132, 126, 121, 115, 109, 104, 98, 92, 86, 80, 74, 68,
    62, 56, 50, 44, 38, 31, 25, 19, 13, 6, 0, -6, -13, -19, -25, -31, -38, -44, -50, -56, -62,
    -68, -74, -80, -86, -92, -98, -104, -109, -115, -121, -126, -132, -137, -142, -147, -152,
    -157, -162, -167, -172, -177, -181, -185, -190, -194, -198, -202, -206, -209, -213, -216,
    -220, -223, -226, -229, -231, -234, -237, -239, -241, -243, -245, -247, -248, -250, -251,
    -252, -253, -254, -255, -255, -256, -256,
];

/// X component of the unit vector of heading `d`.
pub open spec fn dir_x(d: int) -> int {
    DIRECTION_TABLE_X@[d] as int
}

/// Y component of the unit vector of heading `d`.
pub open spec fn dir_y(d: int) -> int {
    DIRECTION_TABLE_Y@[d] as int
}

/// Heading `d`'s unit vector has components in `-256..=256`, and the vector
/// 64 headings on is this one turned a quarter clockwise: `(x, y)` becomes
/// `(-y, x)`.
pub open spec fn quarter_turn_holds(d: int) -> bool {
    &&& dir_x((d + 64) % 256) == -dir_y(d)
    &&& dir_y((d + 64) % 256) == dir_x(d)
    &&& -256 <= dir_x(d) <= 256
    &&& -256 <= dir_y(d) <= 256
}

proof fn lemma_quarter_turn_part0(d: int)
    requires
        0 <= d < 64,
    ensures
        quarter_turn_holds(d),
{
    if d == 0 {
        assert(quarter_turn_holds(0));
    } else if d == 1 {
        assert(quarter_turn_holds(1));
    } else if d == 2 {
        assert(quarter_turn_holds(2));
    } else if d == 3 {
        assert(quarter_turn_holds(3));
    } else if d == 4 {
        assert(quarter_turn_holds(4));
    } else if d == 5 {
        assert(quarter_turn_holds(5));
    } else if d == 6 {
        assert(quarter_turn_holds(6));
    } else if d == 7 {
        assert(quarter_turn_holds(7));
    } else if d == 8 {
        assert(quarter_turn_holds(8));
    } else if d == 9 {
        assert(quarter_turn_holds(9));
    } else if d == 10 {
        assert(quarter_turn_holds(10));
    } else if d == 11 {
        assert(quarter_turn_holds(11));
    } else if d == 12 {
        assert(quarter_turn_holds(12));
    } else if d == 13 {
        assert(quarter_turn_holds(13));
    } else if d == 14 {
        assert(quarter_turn_holds(14));
    } else if d == 15 {
        assert(quarter_turn_holds(15));
    } else if d == 16 {
        assert(quarter_turn_holds(16));
    } else if d == 17 {
        assert(quarter_turn_holds(17));
    } else if d == 18 {
        assert(quarter_turn_holds(18));
    } else if d == 19 {
        assert(quarter_turn_holds(19));
    } else if d == 20 {
        assert(quarter_turn_holds(20));
    } else if d == 21 {
        assert(quarter_turn_holds(21));
    } else if d == 22 {
        assert(quarter_turn_holds(22));
    } else if d == 23 {
        assert(quarter_turn_holds(23));
    } else if d == 24 {
        assert(quarter_turn_holds(24));
    } else if d == 25 {
        assert(quarter_turn_holds(25));
    } else if d == 26 {
        assert(quarter_turn_holds(26));
    } else if d == 27 {
        assert(quarter_turn_holds(27));
    } else if d == 28 {
        assert(quarter_turn_holds(28));
    } else if d == 29 {
        assert(quarter_turn_holds(29));
    } else if d == 30 {
        assert(quarter_turn_holds(30));
    } else if d == 31 {
        assert(quarter_turn_holds(31));
    } else if d == 32 {
        assert(quarter_turn_holds(32));
    } else if d == 33 {
        assert(quarter_turn_holds(33));
    } else if d == 34 {
        assert(quarter_turn_holds(34));
    } else if d == 35 {
        assert(quarter_turn_holds(35));
    } else if d == 36 {
        assert(quarter_turn_holds(36));
    } else if d == 37 {
        assert(quarter_turn_holds(37));
    } else if d == 38 {
        assert(quarter_turn_holds(38));
    } else if d == 39 {
        assert(quarter_turn_holds(39));
    } else if d == 40 {
        assert(quarter_turn_holds(40));
    } else if d == 41 {
        assert(quarter_turn_holds(41));
    } else if d == 42 {
        assert(quarter_turn_holds(42));
    } else if d == 43 {
        assert(quarter_turn_holds(43));
    } else if d == 44 {
        assert(quarter_turn_holds(44));
    } else if d == 45 {
        assert(quarter_turn_holds(45));
    } else if d == 46 {
        assert(quarter_turn_holds(46));
    } else if d == 47 {
        assert(quarter_turn_holds(47));
    } else if d == 48 {
        assert(quarter_turn_holds(48));
    } else if d == 49 {
        assert(quarter_turn_holds(49));
    } else if d == 50 {
        assert(quarter_turn_holds(50));
    } else if d == 51 {
        assert(quarter_turn_holds(51));
    } else if d == 52 {
        assert(quarter_turn_holds(52));
    } else if d == 53 {
        assert(quarter_turn_holds(53));
    } else if d == 54 {
        assert(quarter_turn_holds(54));
    } else if d == 55 {
        assert(quarter_turn_holds(55));
    } else if d == 56 {
        assert(quarter_turn_holds(56));
    } else if d == 57 {
        assert(quarter_turn_holds(57));
    } else if d == 58 {
        assert(quarter_turn_holds(58));
    } else if d == 59 {
        assert(quarter_turn_holds(59));
    } else if d == 60 {
        assert(quarter_turn_holds(60));
    } else if d == 61 {
        assert(quarter_turn_holds(61));
    } else if d == 62 {
        assert(quarter_turn_holds(62));
    } else if d == 63 {
        assert(quarter_turn_holds(63));
    }
}

proof fn lemma_quarter_turn_part1(d: int)
    requires
        64 <= d < 128,
    ensures
        quarter_turn_holds(d),
{
    if d == 64 {
        assert(quarter_turn_holds(64));
    } else if d == 65 {
        assert(quarter_turn_holds(65));
    } else if d == 66 {
        assert(quarter_turn_holds(66));
    } else if d == 67 {
        assert(quarter_turn_holds(67));
    } else if d == 68 {
        assert(quarter_turn_holds(68));
    } else if d == 69 {
        assert(quarter_turn_holds(69));
    } else if d == 70 {
        assert(quarter_turn_holds(70));
    } else if d == 71 {
        assert(quarter_turn_holds(71));
    } else if d == 72 {
        assert(quarter_turn_holds(72));
    } else if d == 73 {
        assert(quarter_turn_holds(73));
    } else if d == 74 {
        assert(quarter_turn_holds(74));
    } else if d == 75 {
        assert(quarter_turn_holds(75));
    } else if d == 76 {
        assert(quarter_turn_holds(76));
    } else if d == 77 {
        assert(quarter_turn_holds(77));
    } else if d == 78 {
        assert(quarter_turn_holds(78));
    } else if d == 79 {
        assert(quarter_turn_holds(79));
    } else if d == 80 {
        assert(quarter_turn_holds(80));
    } else if d == 81 {
        assert(quarter_turn_holds(81));
    } else if d == 82 {
        assert(quarter_turn_holds(82));
    } else if d == 83 {
        assert(quarter_turn_holds(83));
    } else if d == 84 {
        assert(quarter_turn_holds(84));
    } else if d == 85 {
        assert(quarter_turn_holds(85));
    } else if d == 86 {
        assert(quarter_turn_holds(86));
    } else if d == 87 {
        assert(quarter_turn_holds(87));
    } else if d == 88 {
        assert(quarter_turn_holds(88));
    } else if d == 89 {
        assert(quarter_turn_holds(89));
    } else if d == 90 {
        assert(quarter_turn_holds(90));
    } else if d == 91 {
        assert(quarter_turn_holds(91));
    } else if d == 92 {
        assert(quarter_turn_holds(92));
    } else if d == 93 {
        assert(quarter_turn_holds(93));
    } else if d == 94 {
        assert(quarter_turn_holds(94));
    } else if d == 95 {
        assert(quarter_turn_holds(95));
    } else if d == 96 {
        assert(quarter_turn_holds(96));
    } else if d == 97 {
        assert(quarter_turn_holds(97));
    } else if d == 98 {
        assert(quarter_turn_holds(98));
    } else if d == 99 {
        assert(quarter_turn_holds(99));
    } else if d == 100 {
        assert(quarter_turn_holds(100));
    } else if d == 101 {
        assert(quarter_turn_holds(101));
    } else if d == 102 {
        assert(quarter_turn_holds(102));
    } else if d == 103 {
        assert(quarter_turn_holds(103));
    } else if d == 104 {
        assert(quarter_turn_holds(104));
    } else if d == 105 {
        assert(quarter_turn_holds(105));
    } else if d == 106 {
        assert(quarter_turn_holds(106));
    } else if d == 107 {
        assert(quarter_turn_holds(107));
    } else if d == 108 {
        assert(quarter_turn_holds(108));
    } else if d == 109 {
        assert(quarter_turn_holds(109));
    } else if d == 110 {
        assert(quarter_turn_holds(110));
    } else if d == 111 {
        assert(quarter_turn_holds(111));
    } else if d == 112 {
        assert(quarter_turn_holds(112));
    } else if d == 113 {
        assert(quarter_turn_holds(113));
    } else if d == 114 {
        assert(quarter_turn_holds(114));
    } else if d == 115 {
        assert(quarter_turn_holds(115));
    } else if d == 116 {
        assert(quarter_turn_holds(116));
    } else if d == 117 {
        assert(quarter_turn_holds(117));
    } else if d == 118 {
        assert(quarter_turn_holds(118));
    } else if d == 119 {
        assert(quarter_turn_holds(119));
    } else if d == 120 {
        assert(quarter_turn_holds(120));
    } else if d == 121 {
        assert(quarter_turn_holds(121));
    } else if d == 122 {
        assert(quarter_turn_holds(122));
    } else if d == 123 {
        assert(quarter_turn_holds(123));
    } else if d == 124 {
        assert(quarter_turn_holds(124));
    } else if d == 125 {
        assert(quarter_turn_holds(125));
    } else if d == 126 {
        assert(quarter_turn_holds(126));
    } else if d == 127 {
        assert(quarter_turn_holds(127));
    }
}

proof fn lemma_quarter_turn_part2(d: int)
    requires
        128 <= d < 192,
    ensures
        quarter_turn_holds(d),
{
    if d == 128 {
        assert(quarter_turn_holds(128));
    } else if d == 129 {
        assert(quarter_turn_holds(129));
    } else if d == 130 {
        assert(quarter_turn_holds(130));
    } else if d == 131 {
        assert(quarter_turn_holds(131));
    } else if d == 132 {
        assert(quarter_turn_holds(132));
    } else if d == 133 {
        assert(quarter_turn_holds(133));
    } else if d == 134 {
        assert(quarter_turn_holds(134));
    } else if d == 135 {
        assert(quarter_turn_holds(135));
    } else if d == 136 {
        assert(quarter_turn_holds(136));
    } else if d == 137 {
        assert(quarter_turn_holds(137));
    } else if d == 138 {
        assert(quarter_turn_holds(138));
    } else if d == 139 {
        assert(quarter_turn_holds(139));
    } else if d == 140 {
        assert(quarter_turn_holds(140));
    } else if d == 141 {
        assert(quarter_turn_holds(141));
    } else if d == 142 {
        assert(quarter_turn_holds(142));
    } else if d == 143 {
        assert(quarter_turn_holds(143));
    } else if d == 144 {
        assert(quarter_turn_holds(144));
    } else if d == 145 {
        assert(quarter_turn_holds(145));
    } else if d == 146 {
        assert(quarter_turn_holds(146));
    } else if d == 147 {
        assert(quarter_turn_holds(147));
    } else if d == 148 {
        assert(quarter_turn_holds(148));
    } else if d == 149 {
        assert(quarter_turn_holds(149));
    } else if d == 150 {
        assert(quarter_turn_holds(150));
    } else if d == 151 {
        assert(quarter_turn_holds(151));
    } else if d == 152 {
        assert(quarter_turn_holds(152));
    } else if d == 153 {
        assert(quarter_turn_holds(153));
    } else if d == 154 {
        assert(quarter_turn_holds(154));
    } else if d == 155 {
        assert(quarter_turn_holds(155));
    } else if d == 156 {
        assert(quarter_turn_holds(156));
    } else if d == 157 {
        assert(quarter_turn_holds(157));
    } else if d == 158 {
        assert(quarter_turn_holds(158));
    } else if d == 159 {
        assert(quarter_turn_holds(159));
    } else if d == 160 {
        assert(quarter_turn_holds(160));
    } else if d == 161 {
        assert(quarter_turn_holds(161));
    } else if d == 162 {
        assert(quarter_turn_holds(162));
    } else if d == 163 {
        assert(quarter_turn_holds(163));
    } else if d == 164 {
        assert(quarter_turn_holds(164));
    } else if d == 165 {
        assert(quarter_turn_holds(165));
    } else if d == 166 {
        assert(quarter_turn_holds(166));
    } else if d == 167 {
        assert(quarter_turn_holds(167));
    } else if d == 168 {
        assert(quarter_turn_holds(168));
    } else if d == 169 {
        assert(quarter_turn_holds(169));
    } else if d == 170 {
        assert(quarter_turn_holds(170));
    } else if d == 171 {
        assert(quarter_turn_holds(171));
    } else if d == 172 {
        assert(quarter_turn_holds(172));
    } else if d == 173 {
        assert(quarter_turn_holds(173));
    } else if d == 174 {
        assert(quarter_turn_holds(174));
    } else if d == 175 {
        assert(quarter_turn_holds(175));
    } else if d == 176 {
        assert(quarter_turn_holds(176));
    } else if d == 177 {
        assert(quarter_turn_holds(177));
    } else if d == 178 {
        assert(quarter_turn_holds(178));
    } else if d == 179 {
        assert(quarter_turn_holds(179));
    } else if d == 180 {
        assert(quarter_turn_holds(180));
    } else if d == 181 {
        assert(quarter_turn_holds(181));
    } else if d == 182 {
        assert(quarter_turn_holds(182));
    } else if d == 183 {
        assert(quarter_turn_holds(183));
    } else if d == 184 {
        assert(quarter_turn_holds(184));
    } else if d == 185 {
        assert(quarter_turn_holds(185));
    } else if d == 186 {
        assert(quarter_turn_holds(186));
    } else if d == 187 {
        assert(quarter_turn_holds(187));
    } else if d == 188 {
        assert(quarter_turn_holds(188));
    } else if d == 189 {
        assert(quarter_turn_holds(189));
    } else if d == 190 {
        assert(quarter_turn_holds(190));
    } else if d == 191 {
        assert(quarter_turn_holds(191));
    }
}

proof fn lemma_quarter_turn_part3(d: int)
    requires
        192 <= d < 256,
    ensures
        quarter_turn_holds(d),
{
    if d == 192 {
        assert(quarter_turn_holds(192));
    } else if d == 193 {
        assert(quarter_turn_holds(193));
    } else if d == 194 {
        assert(quarter_turn_holds(194));
    } else if d == 195 {
        assert(quarter_turn_holds(195));
    } else if d == 196 {
        assert(quarter_turn_holds(196));
    } else if d == 197 {
        assert(quarter_turn_holds(197));
    } else if d == 198 {
        assert(quarter_turn_holds(198));
    } else if d == 199 {
        assert(quarter_turn_holds(199));
    } else if d == 200 {
        assert(quarter_turn_holds(200));
    } else if d == 201 {
        assert(quarter_turn_holds(201));
    } else if d == 202 {
        assert(quarter_turn_holds(202));
    } else if d == 203 {
        assert(quarter_turn_holds(203));
    } else if d == 204 {
        assert(quarter_turn_holds(204));
    } else if d == 205 {
        assert(quarter_turn_holds(205));
    } else if d == 206 {
        assert(quarter_turn_holds(206));
    } else if d == 207 {
        assert(quarter_turn_holds(207));
    } else if d == 208 {
        assert(quarter_turn_holds(208));
    } else if d == 209 {
        assert(quarter_turn_holds(209));
    } else if d == 210 {
        assert(quarter_turn_holds(210));
    } else if d == 211 {
        assert(quarter_turn_holds(211));
    } else if d == 212 {
        assert(quarter_turn_holds(212));
    } else if d == 213 {
        assert(quarter_turn_holds(213));
    } else if d == 214 {
        assert(quarter_turn_holds(214));
    } else if d == 215 {
        assert(quarter_turn_holds(215));
    } else if d == 216 {
        assert(quarter_turn_holds(216));
    } else if d == 217 {
        assert(quarter_turn_holds(217));
    } else if d == 218 {
        assert(quarter_turn_holds(218));
    } else if d == 219 {
        assert(quarter_turn_holds(219));
    } else if d == 220 {
        assert(quarter_turn_holds(220));
    } else if d == 221 {
        assert(quarter_turn_holds(221));
    } else if d == 222 {
        assert(quarter_turn_holds(222));
    } else if d == 223 {
        assert(quarter_turn_holds(223));
    } else if d == 224 {
        assert(quarter_turn_holds(224));
    } else if d == 225 {
        assert(quarter_turn_holds(225));
    } else if d == 226 {
        assert(quarter_turn_holds(226));
    } else if d == 227 {
        assert(quarter_turn_holds(227));
    } else if d == 228 {
        assert(quarter_turn_holds(228));
    } else if d == 229 {
        assert(quarter_turn_holds(229));
    } else if d == 230 {
        assert(quarter_turn_holds(230));
    } else if d == 231 {
        assert(quarter_turn_holds(231));
    } else if d == 232 {
        assert(quarter_turn_holds(232));
    } else if d == 233 {
        assert(quarter_turn_holds(233));
    } else if d == 234 {
        assert(quarter_turn_holds(234));
    } else if d == 235 {
        assert(quarter_turn_holds(235));
    } else if d == 236 {
        assert(quarter_turn_holds(236));
    } else if d == 237 {
        assert(quarter_turn_holds(237));
    } else if d == 238 {
        assert(quarter_turn_holds(238));
    } else if d == 239 {
        assert(quarter_turn_holds(239));
    } else if d == 240 {
        assert(quarter_turn_holds(240));
    } else if d == 241 {
        assert(quarter_turn_holds(241));
    } else if d == 242 {
        assert(quarter_turn_holds(242));
    } else if d == 243 {
        assert(quarter_turn_holds(243));
    } else if d == 244 {
        assert(quarter_turn_holds(244));
    } else if d == 245 {
        assert(quarter_turn_holds(245));
    } else if d == 246 {
        assert(quarter_turn_holds(246));
    } else if d == 247 {
        assert(quarter_turn_holds(247));
    } else if d == 248 {
        assert(quarter_turn_holds(248));
    } else if d == 249 {
        assert(quarter_turn_holds(249));
    } else if d == 250 {
        assert(quarter_turn_holds(250));
    } else if d == 251 {
        assert(quarter_turn_holds(251));
    } else if d == 252 {
        assert(quarter_turn_holds(252));
    } else if d == 253 {
        assert(quarter_turn_holds(253));
    } else if d == 254 {
        assert(quarter_turn_holds(254));
    } else if d == 255 {
        assert(quarter_turn_holds(255));
    }
}

/// The unit vectors of the headings lie in `-256..=256` in each component,
/// and turning a heading a quarter clockwise (64 headings on) turns its
/// vector `(x, y)` into `(-y, x)`.
pub proof fn lemma_quarter_turn(d: int)
    requires
        0 <= d < 256,
    ensures
        dir_x((d + 64) % 256) == -dir_y(d),
        dir_y((d + 64) % 256) == dir_x(d),
        -256 <= dir_x(d) <= 256,
        -256 <= dir_y(d) <= 256,
{
    if d < 64 {
        lemma_quarter_turn_part0(d);
    } else if d < 128 {
        lemma_quarter_turn_part1(d);
    } else if d < 192 {
        lemma_quarter_turn_part2(d);
    } else {
        lemma_quarter_turn_part3(d);
    }
}

/// How far `(dx, dy)` points along heading `d` (dot product).
pub open spec fn along(dx: int, dy: int, d: int) -> int {
    dx * dir_x(d) + dy * dir_y(d)
}

/// How far `(dx, dy)` points across heading `d` (magnitude of the cross product).
pub open spec fn across(dx: int, dy: int, d: int) -> int {
    let c = dx * dir_y(d) - dy * dir_x(d);
    if c < 0 { -c } else { c }
}

/// Heading `i` matches `(dx, dy)` strictly better than heading `j`: more
/// along it, or as much along and less across.
pub open spec fn better_heading(dx: int, dy: int, i: int, j: int) -> bool {
    along(dx, dy, i) > along(dx, dy, j) || (along(dx, dy, i) == along(dx, dy, j) && across(dx, dy, i)
        < across(dx, dy, j))
}

/// Heading `d` is the first, by index, of those best matching `(dx, dy)`.
pub open spec fn is_best_heading(dx: int, dy: int, d: int) -> bool {
    &&& 0 <= d < 256
    &&& forall|j: int| 0 <= j < 256 ==> !better_heading(dx, dy, j, d)
    &&& forall|j: int| 0 <= j < d ==> better_heading(dx, dy, d, j)
}

/// The heading chosen for the delta `(dx, dy)`: 0 for a zero delta, else
/// the first best-matching heading.
pub open spec fn heading_of(dx: int, dy: int) -> int {
    if dx == 0 && dy == 0 {
        0
    } else {
        choose|d: int| is_best_heading(dx, dy, d)
    }
}

/// At most one heading is the first best match.
pub proof fn lemma_best_heading_unique(dx: int, dy: int, a: int, b: int)
    requires
        is_best_heading(dx, dy, a),
        is_best_heading(dx, dy, b),
    ensures
        a == b,
{
    if a < b {
        assert(better_heading(dx, dy, b, a));
    } else if b < a {
        assert(better_heading(dx, dy, a, b));
    }
}

/// The signed value of the byte `v` read as two's complement.
pub open spec fn as_i8(v: int) -> int {
    if v < 128 { v } else { v - 256 }
}

/// Signed shortest turn from heading `a` to heading `b`, in `-128..=127`.
pub open spec fn turn_diff(a: u8, b: u8) -> int {
    as_i8((b - a) % 256)
}

/// Heading `h` turned toward heading `target` by at most `rate` units, along
/// the shorter arc, never past the target.
pub open spec fn turn_toward_spec(h: u8, target: u8, rate: u8) -> int {
    let d = turn_diff(h, target);
    let rt = rate as int;
    let step = if d == 0 {
        0
    } else if d > 0 {
        if d < rt { d } else { rt }
    } else {
        if d > -rt { d } else { -rt }
    };
    (h + step) % 256
}

/// A turn moves the heading toward the target along the shorter arc: the
/// turn still left shrinks by the rate, and is zero once the target was
/// within reach.
pub proof fn lemma_turn_approaches(h: u8, target: u8, rate: u8)
    ensures
        ({
            let d = turn_diff(h, target);
            let after = turn_diff(turn_toward_spec(h, target, rate) as u8, target);
            &&& (d >= 0 ==> after == if d > rate { d - rate } else { 0 })
            &&& (d < 0 ==> after == if -d > rate { d + rate } else { 0 })
        }),
{
    let d = turn_diff(h, target);
    let rt = rate as int;
    let step: int = if d == 0 {
        0
    } else if d > 0 {
        if d < rt { d } else { rt }
    } else {
        if d > -rt { d } else { -rt }
    };
    let n = (h + step) % 256;
    assert(turn_toward_spec(h, target, rate) == n);
    assert(-128 <= d - step <= 127);
    let x = target - h;
    vstd::arithmetic::div_mod::lemma_fundamental_div_mod(x, 256);
    let q1 = x / 256;
    let m1 = x % 256;
    let q2 = if m1 < 128 { q1 } else { q1 + 1 };
    assert(x == 256 * q2 + d);
    vstd::arithmetic::div_mod::lemma_fundamental_div_mod(h + step, 256);
    let q3 = (h + step) / 256;
    assert(h + step == 256 * q3 + n);
    assert(target - n == 256 * (q2 + q3) + (d - step));
    vstd::arithmetic::div_mod::lemma_mod_multiples_vanish(q2 + q3, d - step, 256);
    assert((target - n) % 256 == (d - step) % 256);
    let v = d - step;
    if v >= 0 {
        vstd::arithmetic::div_mod::lemma_small_mod(v as nat, 256);
    } else {
        vstd::arithmetic::div_mod::lemma_mod_add_multiples_vanish(v, 256);
        vstd::arithmetic::div_mod::lemma_small_mod((v + 256) as nat, 256);
    }
    assert(as_i8((d - step) % 256) == d - step);
}

/// A heading: 256 directions, clockwise from north.
#[derive(Debug, Clone, Copy, PartialEq, Eq, Structural, Default)]
pub struct Direction(pub u8);

impl Direction {
    /// Heading 0.
    pub fn north() -> (r: Direction)
        ensures
            r.0 == 0,
    {
        Direction(0)
    }

    /// Heading 64.
    pub fn east() -> (r: Direction)
        ensures
            r.0 == 64,
    {
        Direction(64)
    }

    /// Heading 128.
    pub fn south() -> (r: Direction)
        ensures
            r.0 == 128,
    {
        Direction(128)
    }

    /// Heading 192.
    pub fn west() -> (r: Direction)
        ensures
            r.0 == 192,
    {
        Direction(192)
    }

    /// The heading closest to the delta `(dx, dy)`: the first one, by index,
    /// whose unit vector points most along it, and of those least across it.
    /// A zero delta gives heading 0.
    pub fn from_delta(dx: Fp8, dy: Fp8) -> (r: Direction)
        ensures
            dx.0 == 0 && dy.0 == 0 ==> r.0 == 0,
            !(dx.0 == 0 && dy.0 == 0) ==> forall|j: int|
                0 <= j < 256 ==> !better_heading(dx.0 as int, dy.0 as int, j, r.0 as int),
            !(dx.0 == 0 && dy.0 == 0) ==> forall|j: int|
                0 <= j < r.0 ==> better_heading(dx.0 as int, dy.0 as int, r.0 as int, j),
            r.0 == heading_of(dx.0 as int, dy.0 as int),
    {
        if dx.0 == 0 && dy.0 == 0 {
            return Direction(0);
        }
        let mut best_dir: u8 = 0;
        let mut best_dot: i64 = i64::MIN;
        let mut best_cross: i64 = i64::MAX;
        let dxi = dx.0 as i64;
        let dyi = dy.0 as i64;
        let ghost gx = dx.0 as int;
        let ghost gy = dy.0 as int;
        let mut i: u16 = 0;
        while i < 256
            invariant
                i <= 256,
                gx == dxi,
                gy == dyi,
                i32::MIN <= dxi <= i32::MAX,
                i32::MIN <= dyi <= i32::MAX,
                i == 0 ==> best_dot == i64::MIN && best_dir == 0,
                i > 0 ==> best_dir < i && best_dot == along(gx, gy, best_dir as int) && best_cross == across(
                    gx,
                    gy,
                    best_dir as int,
                ),
                i > 0 ==> forall|j: int| 0 <= j < i ==> !better_heading(gx, gy, j, best_dir as int),
                forall|j: int| 0 <= j < best_dir ==> better_heading(gx, gy, best_dir as int, j),
            decreases 256 - i,
        {
            let tx = DIRECTION_TABLE_X[i as usize] as i64;
            let ty = DIRECTION_TABLE_Y[i as usize] as i64;
            proof {
                assert(-0x8000 <= tx <= 0x7FFF && -0x8000 <= ty <= 0x7FFF);
                assert(-0x4000_0000_0000 <= dxi * tx <= 0x4000_0000_0000) by (nonlinear_arith)
                    requires
                        i32::MIN <= dxi <= i32::MAX,
                        -0x8000 <= tx <= 0x7FFF,
                ;
                assert(-0x4000_0000_0000 <= dyi * ty <= 0x4000_0000_0000) by (nonlinear_arith)
                    requires
                        i32::MIN <= dyi <= i32::MAX,
                        -0x8000 <= ty <= 0x7FFF,
                ;
                assert(-0x4000_0000_0000 <= dxi * ty <= 0x4000_0000_0000) by (nonlinear_arith)
                    requires
                        i32::MIN <= dxi <= i32::MAX,
                        -0x8000 <= ty <= 0x7FFF,
                ;
                assert(-0x4000_0000_0000 <= dyi * tx <= 0x4000_0000_0000) by (nonlinear_arith)
                    requires
                        i32::MIN <= dyi <= i32::MAX,
                        -0x8000 <= tx <= 0x7FFF,
                ;
            }
            let dot = dxi * tx + dyi * ty;
            let c = dxi * ty - dyi * tx;
            let cross = if c < 0 { -c } else { c };
            proof {
                assert(dot == along(gx, gy, i as int));
                assert(cross == across(gx, gy, i as int));
            }
            let ghost old_best = best_dir as int;
            if dot > best_dot || (dot == best_dot && cross < best_cross) {
                proof {
                    if i > 0 {
                        assert(better_heading(gx, gy, i as int, old_best));
                        assert forall|j: int| 0 <= j < i + 1 implies !better_heading(gx, gy, j, i as int) by {
                            if j < i {
                                assert(!better_heading(gx, gy, j, old_best));
                            }
                        }
                        assert forall|j: int| 0 <= j < i implies better_heading(gx, gy, i as int, j) by {
                            assert(!better_heading(gx, gy, j, old_best));
                        }
                    }
                }
                best_dot = dot;
                best_cross = cross;
                best_dir = i as u8;
            }
            i = i + 1;
        }
        proof {
            assert(is_best_heading(gx, gy, best_dir as int));
            let c = choose|d: int| is_best_heading(gx, gy, d);
            lemma_best_heading_unique(gx, gy, c, best_dir as int);
        }
        Direction(best_dir)
    }

    /// Turns toward `target` by at most `rate` units, along the shorter arc,
    /// never past the target.
    pub fn turn_toward(self, target: Direction, rate: u8) -> (r: Direction)
        ensures
            r.0 == turn_toward_spec(self.0, target.0, rate),
    {
        let raw = target.0.wrapping_sub(self.0);
        let diff = raw as i8;
        proof {
            assert(raw == (target.0 - self.0) % 256);
            assert(diff == as_i8(raw as int)) by (bit_vector)
                requires
                    diff == raw as i8,
            ;
        }
        if diff == 0 {
            return self;
        }
        let d = diff as i16;
        let rt = rate as i16;
        let wide: i16 = if d > 0 {
            if d < rt { d } else { rt }
        } else {
            if d > -rt { d } else { -rt }
        };
        let clamped = wide as i8;
        let step = clamped as u8;
        let r = self.0.wrapping_add(step);
        proof {
            assert(step == (clamped + 256) % 256) by (bit_vector)
                requires
                    step == clamped as u8,
            ;
            assert(r == (self.0 + step) % 256);
            assert((self.0 + step) % 256 == (self.0 + clamped) % 256) by {
                assert((self.0 + (clamped + 256) % 256) % 256 == (self.0 + clamped) % 256) by (nonlinear_arith)
                    requires
                        -128 <= clamped <= 127,
                        0 <= self.0 <= 255,
                ;
            }
        }
        Direction(r)
    }

    /// Signed shortest angular difference from `self` to `other`.
    pub fn diff(self, other: Direction) -> (r: i8)
        ensures
            r == turn_diff(self.0, other.0),
    {
        let raw = other.0.wrapping_sub(self.0);
        let d = raw as i8;
        proof {
            assert(raw == (other.0 - self.0) % 256);
            assert(d == as_i8(raw as int)) by (bit_vector)
                requires
                    d == raw as i8,
            ;
        }
        d
    }

    /// The unit vector of this heading, in fp8 (magnitude 256 = 1.0).
    pub fn unit_vector(self) -> (r: (Fp8, Fp8))
        ensures
            r.0.0 == dir_x(self.0 as int),
            r.1.0 == dir_y(self.0 as int),
    {
        let idx = self.0 as usize;
        (Fp8::from_raw(DIRECTION_TABLE_X[idx] as i32), Fp8::from_raw(DIRECTION_TABLE_Y[idx] as i32))
    }
}

} // verus!
