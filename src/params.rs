use vstd::prelude::*;

verus! {

/// Evaluation weights as (midgame, endgame) pairs, in one indexed table:
/// piece values at 0, the piece-square tables of pawn, knight, bishop,
/// rook, queen and king at 6 + 64 * kind (row 0 of each is the eighth rank
/// seen from White), passed pawns at 390, knight, bishop, rook and queen
/// mobility by attack count at 454, 463,
/// 477 and 492, attacked squares around the king at
/// 520, and the bishop pair at 529.
#[verifier::opaque]
pub open spec fn param(i: usize) -> (int, int) {
    match i {
        0 => (101, 169),
        1 => (274, 329),
        2 => (283, 345),
        3 => (376, 603),
        4 => (771, 1148),
        5 => (0, 0),
        6 => (0, 0),
        7 => (0, 0),
        8 => (0, 0),
        9 => (0, 0),
        10 => (0, 0),
        11 => (0, 0),
        12 => (0, 0),
        13 => (0, 0),
        14 => (8, 86),
        15 => (24, 79),
        16 => (7, 78),
        17 => (24, 41),
        18 => (11, 41),
        19 => (4, 52),
        20 => (-36, 80),
        21 => (-55, 91),
        22 => (-10, 20),
        23 => (-11, 26),
        24 => (10, -12),
        25 => (16, 9),
        26 => (34, -29),
        27 => (82, -28),
        28 => (78, 23),
        29 => (30, 8),
        30 => (-34, 13),
        31 => (-13, 7),
        32 => (-17, -17),
        33 => (-17, -33),
        34 => (11, -33),
        35 => (9, -32),
        36 => (13, -6),
        37 => (-2, -19),
        38 => (-39, -8),
        39 => (-18, 2),
        40 => (-14, -25),
        41 => (0, -28),
        42 => (2, -29),
        43 => (-3, -27),
        44 => (2, -14),
        45 => (-17, -32),
        46 => (-40, -12),
        47 => (-11, -7),
        48 => (-18, -26),
        49 => (-10, -16),
        50 => (10, -18),
        51 => (-11, -23),
        52 => (31, -20),
        53 => (-8, -34),
        54 => (-30, -9),
        55 => (-6, -2),
        56 => (-11, -23),
        57 => (-11, -10),
        58 => (5, -2),
        59 => (26, -20),
        60 => (49, -21),
        61 => (-10, -37),
        62 => (0, 0),
        63 => (0, 0),
        64 => (0, 0),
        65 => (0, 0),
        66 => (0, 0),
        67 => (0, 0),
        68 => (0, 0),
        69 => (0, 0),
        70 => (-136, -49),
        71 => (-144, -11),
        72 => (-81, 4),
        73 => (-31, -7),
        74 => (6, -2),
        75 => (-63, -32),
        76 => (-119, -5),
        77 => (-76, -77),
        78 => (-4, -6),
        79 => (5, 3),
        80 => (34, -2),
        81 => (47, -2),
        82 => (22, -9),
        83 => (95, -29),
        84 => (13, -2),
        85 => (39, -24),
        86 => (4, -8),
        87 => (36, -5),
        88 => (35, 16),
        89 => (49, 19),
        90 => (71, 7),
        91 => (82, -7),
        92 => (39, -8),
        93 => (19, -12),
        94 => (12, 11),
        95 => (12, 15),
        96 => (31, 28),
        97 => (69, 29),
        98 => (34, 34),
        99 => (59, 28),
        100 => (5, 24),
        101 => (53, 2),
        102 => (-1, 18),
        103 => (3, 6),
        104 => (9, 28),
        105 => (24, 29),
        106 => (29, 35),
        107 => (27, 18),
        108 => (30, 6),
        109 => (16, 11),
        110 => (-27, -4),
        111 => (-14, -4),
        112 => (-10, 2),
        113 => (-8, 22),
        114 => (12, 19),
        115 => (-8, -5),
        116 => (12, -8),
        117 => (-6, -2),
        118 => (-28, -2),
        119 => (-25, 1),
        120 => (-17, -11),
        121 => (7, -6),
        122 => (2, -7),
        123 => (3, -13),
        124 => (-7, -9),
        125 => (-3, 15),
        126 => (-81, 15),
        127 => (-8, -16),
        128 => (-38, -13),
        129 => (-17, -11),
        130 => (-11, -6),
        131 => (-8, -20),
        132 => (-6, -8),
        133 => (-37, 1),
        134 => (-21, -1),
        135 => (-75, 14),
        136 => (-61, 7),
        137 => (-125, 22),
        138 => (-100, 14),
        139 => (-82, 0),
        140 => (-48, 3),
        141 => (-63, -6),
        142 => (-15, -14),
        143 => (1, -9),
        144 => (-12, -5),
        145 => (-27, 0),
        146 => (0, -12),
        147 => (-16, -6),
        148 => (-23, 0),
        149 => (-14, -13),
        150 => (-2, 8),
        151 => (17, -5),
        152 => (15, 0),
        153 => (24, -10),
        154 => (5, -1),
        155 => (49, 3),
        156 => (22, -1),
        157 => (14, 11),
        158 => (-11, 3),
        159 => (8, 7),
        160 => (14, 2),
        161 => (36, 21),
        162 => (26, 9),
        163 => (21, 10),
        164 => (10, 2),
        165 => (-14, 8),
        166 => (-1, -2),
        167 => (-14, 8),
        168 => (-1, 14),
        169 => (25, 12),
        170 => (22, 11),
        171 => (1, 5),
        172 => (-7, 6),
        173 => (22, -16),
        174 => (6, 1),
        175 => (14, 6),
        176 => (7, 6),
        177 => (13, 9),
        178 => (14, 13),
        179 => (11, 6),
        180 => (15, -9),
        181 => (30, -6),
        182 => (36, 12),
        183 => (12, -13),
        184 => (26, -17),
        185 => (1, -4),
        186 => (9, -1),
        187 => (26, -14),
        188 => (36, -5),
        189 => (33, -10),
        190 => (14, -4),
        191 => (35, 2),
        192 => (17, -12),
        193 => (-3, -8),
        194 => (6, -11),
        195 => (3, 3),
        196 => (29, -19),
        197 => (42, -22),
        198 => (8, 14),
        199 => (-19, 27),
        200 => (-28, 42),
        201 => (-38, 39),
        202 => (-21, 31),
        203 => (17, 20),
        204 => (18, 16),
        205 => (44, 7),
        206 => (-2, 15),
        207 => (-8, 31),
        208 => (12, 37),
        209 => (34, 25),
        210 => (15, 26),
        211 => (34, 14),
        212 => (37, 4),
        213 => (69, -10),
        214 => (-15, 15),
        215 => (24, 13),
        216 => (18, 17),
        217 => (26, 14),
        218 => (58, -3),
        219 => (58, -9),
        220 => (114, -22),
        221 => (71, -25),
        222 => (-23, 19),
        223 => (-1, 13),
        224 => (0, 22),
        225 => (5, 17),
        226 => (16, -1),
        227 => (15, -8),
        228 => (29, -10),
        229 => (25, -17),
        230 => (-41, 10),
        231 => (-40, 12),
        232 => (-29, 12),
        233 => (-15, 8),
        234 => (-15, 5),
        235 => (-34, 4),
        236 => (0, -12),
        237 => (-18, -13),
        238 => (-48, 2),
        239 => (-38, -3),
        240 => (-28, -6),
        241 => (-26, -2),
        242 => (-17, -9),
        243 => (-20, -19),
        244 => (19, -42),
        245 => (-8, -36),
        246 => (-49, -8),
        247 => (-36, -7),
        248 => (-14, -11),
        249 => (-13, -11),
        250 => (-7, -20),
        251 => (-9, -26),
        252 => (8, -35),
        253 => (-26, -25),
        254 => (-26, -10),
        255 => (-19, -10),
        256 => (-3, -5),
        257 => (5, -9),
        258 => (12, -19),
        259 => (-3, -16),
        260 => (9, -25),
        261 => (-20, -26),
        262 => (-25, -16),
        263 => (-69, 25),
        264 => (-56, 61),
        265 => (-34, 51),
        266 => (-51, 58),
        267 => (-40, 52),
        268 => (31, -30),
        269 => (-12, 0),
        270 => (8, -33),
        271 => (-35, 13),
        272 => (-40, 60),
        273 => (-54, 84),
        274 => (-73, 118),
        275 => (-21, 60),
        276 => (-29, 41),
        277 => (53, 17),
        278 => (11, -23),
        279 => (-1, -8),
        280 => (-10, 40),
        281 => (-11, 56),
        282 => (-9, 71),
        283 => (17, 53),
        284 => (36, 13),
        285 => (16, 23),
        286 => (-6, -7),
        287 => (-3, 9),
        288 => (-15, 30),
        289 => (-18, 57),
        290 => (-17, 68),
        291 => (-3, 53),
        292 => (11, 49),
        293 => (18, 23),
        294 => (6, -20),
        295 => (-15, 18),
        296 => (-12, 19),
        297 => (-5, 40),
        298 => (-5, 41),
        299 => (-8, 33),
        300 => (11, 17),
        301 => (23, 6),
        302 => (0, -36),
        303 => (6, -19),
        304 => (-5, 4),
        305 => (-4, 5),
        306 => (2, 8),
        307 => (8, -2),
        308 => (24, -25),
        309 => (27, -38),
        310 => (18, -52),
        311 => (6, -47),
        312 => (17, -48),
        313 => (22, -43),
        314 => (18, -36),
        315 => (30, -74),
        316 => (38, -111),
        317 => (67, -141),
        318 => (8, -57),
        319 => (13, -58),
        320 => (22, -62),
        321 => (30, -43),
        322 => (26, -65),
        323 => (5, -64),
        324 => (32, -92),
        325 => (34, -97),
        326 => (24, -123),
        327 => (18, -51),
        328 => (53, -32),
        329 => (-119, 33),
        330 => (-55, 9),
        331 => (5, 9),
        332 => (84, -6),
        333 => (184, -148),
        334 => (-133, 9),
        335 => (-30, 45),
        336 => (-76, 61),
        337 => (60, 41),
        338 => (-1, 65),
        339 => (-4, 83),
        340 => (50, 65),
        341 => (-9, 26),
        342 => (-151, 28),
        343 => (25, 52),
        344 => (-66, 80),
        345 => (-95, 95),
        346 => (-40, 95),
        347 => (67, 82),
        348 => (25, 80),
        349 => (-31, 38),
        350 => (-108, 15),
        351 => (-88, 59),
        352 => (-114, 87),
        353 => (-173, 105),
        354 => (-162, 105),
        355 => (-110, 97),
        356 => (-107, 81),
        357 => (-171, 48),
        358 => (-112, 4),
        359 => (-85, 41),
        360 => (-120, 74),
        361 => (-167, 97),
        362 => (-151, 93),
        363 => (-105, 74),
        364 => (-109, 57),
        365 => (-194, 42),
        366 => (-53, -11),
        367 => (-2, 20),
        368 => (-69, 49),
        369 => (-86, 65),
        370 => (-72, 63),
        371 => (-74, 51),
        372 => (-21, 25),
        373 => (-81, 14),
        374 => (53, -32),
        375 => (15, 4),
        376 => (-2, 20),
        377 => (-48, 34),
        378 => (-48, 38),
        379 => (-27, 26),
        380 => (34, 1),
        381 => (27, -23),
        382 => (30, -85),
        383 => (75, -55),
        384 => (40, -24),
        385 => (-79, -3),
        386 => (0, -27),
        387 => (-45, -7),
        388 => (47, -42),
        389 => (37, -87),
        390 => (0, 0),
        391 => (0, 0),
        392 => (0, 0),
        393 => (0, 0),
        394 => (0, 0),
        395 => (0, 0),
        396 => (0, 0),
        397 => (0, 0),
        398 => (43, 170),
        399 => (59, 163),
        400 => (42, 162),
        401 => (59, 125),
        402 => (46, 125),
        403 => (39, 136),
        404 => (-1, 164),
        405 => (-20, 175),
        406 => (18, 186),
        407 => (41, 182),
        408 => (27, 157),
        409 => (15, 86),
        410 => (4, 118),
        411 => (3, 142),
        412 => (-48, 151),
        413 => (-67, 183),
        414 => (13, 90),
        415 => (4, 85),
        416 => (24, 65),
        417 => (21, 56),
        418 => (2, 54),
        419 => (11, 66),
        420 => (-39, 88),
        421 => (-29, 97),
        422 => (-11, 48),
        423 => (-18, 35),
        424 => (-31, 34),
        425 => (-18, 24),
        426 => (-27, 28),
        427 => (-14, 32),
        428 => (-31, 50),
        429 => (-25, 49),
        430 => (-16, -5),
        431 => (-33, 6),
        432 => (-35, 11),
        433 => (-31, -1),
        434 => (-29, 2),
        435 => (-14, 2),
        436 => (-33, 25),
        437 => (-7, 3),
        438 => (-28, -5),
        439 => (-19, -4),
        440 => (-31, 7),
        441 => (-29, 1),
        442 => (-14, -18),
        443 => (-12, -5),
        444 => (1, -3),
        445 => (-20, 4),
        446 => (0, 0),
        447 => (0, 0),
        448 => (0, 0),
        449 => (0, 0),
        450 => (0, 0),
        451 => (0, 0),
        452 => (0, 0),
        453 => (0, 0),
        454 => (-89, -19),
        455 => (55, 79),
        456 => (87, 122),
        457 => (101, 155),
        458 => (117, 168),
        459 => (119, 184),
        460 => (134, 188),
        461 => (149, 192),
        462 => (165, 185),
        463 => (58, -94),
        464 => (34, 29),
        465 => (84, 101),
        466 => (99, 137),
        467 => (117, 152),
        468 => (129, 163),
        469 => (138, 177),
        470 => (145, 184),
        471 => (149, 193),
        472 => (153, 194),
        473 => (156, 198),
        474 => (169, 189),
        475 => (173, 193),
        476 => (175, 181),
        477 => (79, 78),
        478 => (105, 194),
        479 => (135, 255),
        480 => (147, 274),
        481 => (157, 285),
        482 => (163, 294),
        483 => (168, 301),
        484 => (174, 308),
        485 => (182, 309),
        486 => (193, 313),
        487 => (203, 318),
        488 => (211, 324),
        489 => (218, 330),
        490 => (222, 330),
        491 => (215, 330),
        492 => (0, 0),
        493 => (0, 0),
        494 => (-46, -17),
        495 => (326, 123),
        496 => (292, 404),
        497 => (328, 450),
        498 => (338, 473),
        499 => (346, 491),
        500 => (354, 512),
        501 => (359, 546),
        502 => (366, 552),
        503 => (373, 560),
        504 => (378, 571),
        505 => (385, 572),
        506 => (387, 578),
        507 => (389, 588),
        508 => (390, 592),
        509 => (388, 605),
        510 => (388, 612),
        511 => (388, 615),
        512 => (397, 618),
        513 => (408, 603),
        514 => (427, 601),
        515 => (447, 584),
        516 => (450, 592),
        517 => (609, 511),
        518 => (510, 550),
        519 => (425, 578),
        520 => (62, -25),
        521 => (55, -19),
        522 => (26, -6),
        523 => (-26, -9),
        524 => (-115, 22),
        525 => (-229, 79),
        526 => (-346, 135),
        527 => (-512, 193),
        528 => (-277, -81),
        529 => (31, 89),
        _ => (0, 0),
    }
}

pub const PIECE_VALUES: usize = 0;
pub const PSQT: usize = 6;
pub const PASSED_PAWNS: usize = 390;
pub const KNIGHT_MOBILITY: usize = 454;
pub const BISHOP_MOBILITY: usize = 463;
pub const ROOK_MOBILITY: usize = 477;
pub const QUEEN_MOBILITY: usize = 492;
pub const ATTACKED_KING_SQUARES: usize = 520;
pub const BISHOP_PAIR_BONUS: usize = 529;
pub const N_PARAMS: usize = 530;

/// Reads entry `i` of the weight table.
#[verifier::rlimit(20)]
pub fn param_at(i: usize) -> (r: (i32, i32))
    requires
        i < N_PARAMS,
    ensures
        r.0 == param(i).0,
        r.1 == param(i).1,
        -1200 <= r.0 <= 1200,
        -1200 <= r.1 <= 1200,
{
    proof {
        reveal(param);
    }
    match i {
        0 => (101, 169),
        1 => (274, 329),
        2 => (283, 345),
        3 => (376, 603),
        4 => (771, 1148),
        5 => (0, 0),
        6 => (0, 0),
        7 => (0, 0),
        8 => (0, 0),
        9 => (0, 0),
        10 => (0, 0),
        11 => (0, 0),
        12 => (0, 0),
        13 => (0, 0),
        14 => (8, 86),
        15 => (24, 79),
        16 => (7, 78),
        17 => (24, 41),
        18 => (11, 41),
        19 => (4, 52),
        20 => (-36, 80),
        21 => (-55, 91),
        22 => (-10, 20),
        23 => (-11, 26),
        24 => (10, -12),
        25 => (16, 9),
        26 => (34, -29),
        27 => (82, -28),
        28 => (78, 23),
        29 => (30, 8),
        30 => (-34, 13),
        31 => (-13, 7),
        32 => (-17, -17),
        33 => (-17, -33),
        34 => (11, -33),
        35 => (9, -32),
        36 => (13, -6),
        37 => (-2, -19),
        38 => (-39, -8),
        39 => (-18, 2),
        40 => (-14, -25),
        41 => (0, -28),
        42 => (2, -29),
        43 => (-3, -27),
        44 => (2, -14),
        45 => (-17, -32),
        46 => (-40, -12),
        47 => (-11, -7),
        48 => (-18, -26),
        49 => (-10, -16),
        50 => (10, -18),
        51 => (-11, -23),
        52 => (31, -20),
        53 => (-8, -34),
        54 => (-30, -9),
        55 => (-6, -2),
        56 => (-11, -23),
        57 => (-11, -10),
        58 => (5, -2),
        59 => (26, -20),
        60 => (49, -21),
        61 => (-10, -37),
        62 => (0, 0),
        63 => (0, 0),
        64 => (0, 0),
        65 => (0, 0),
        66 => (0, 0),
        67 => (0, 0),
        68 => (0, 0),
        69 => (0, 0),
        70 => (-136, -49),
        71 => (-144, -11),
        72 => (-81, 4),
        73 => (-31, -7),
        74 => (6, -2),
        75 => (-63, -32),
        76 => (-119, -5),
        77 => (-76, -77),
        78 => (-4, -6),
        79 => (5, 3),
        80 => (34, -2),
        81 => (47, -2),
        82 => (22, -9),
        83 => (95, -29),
        84 => (13, -2),
        85 => (39, -24),
        86 => (4, -8),
        87 => (36, -5),
        88 => (35, 16),
        89 => (49, 19),
        90 => (71, 7),
        91 => (82, -7),
        92 => (39, -8),
        93 => (19, -12),
        94 => (12, 11),
        95 => (12, 15),
        96 => (31, 28),
        97 => (69, 29),
        98 => (34, 34),
        99 => (59, 28),
        100 => (5, 24),
        101 => (53, 2),
        102 => (-1, 18),
        103 => (3, 6),
        104 => (9, 28),
        105 => (24, 29),
        106 => (29, 35),
        107 => (27, 18),
        108 => (30, 6),
        109 => (16, 11),
        110 => (-27, -4),
        111 => (-14, -4),
        112 => (-10, 2),
        113 => (-8, 22),
        114 => (12, 19),
        115 => (-8, -5),
        116 => (12, -8),
        117 => (-6, -2),
        118 => (-28, -2),
        119 => (-25, 1),
        120 => (-17, -11),
        121 => (7, -6),
        122 => (2, -7),
        123 => (3, -13),
        124 => (-7, -9),
        125 => (-3, 15),
        126 => (-81, 15),
        127 => (-8, -16),
        128 => (-38, -13),
        129 => (-17, -11),
        130 => (-11, -6),
        131 => (-8, -20),
        132 => (-6, -8),
        133 => (-37, 1),
        134 => (-21, -1),
        135 => (-75, 14),
        136 => (-61, 7),
        137 => (-125, 22),
        138 => (-100, 14),
        139 => (-82, 0),
        140 => (-48, 3),
        141 => (-63, -6),
        142 => (-15, -14),
        143 => (1, -9),
        144 => (-12, -5),
        145 => (-27, 0),
        146 => (0, -12),
        147 => (-16, -6),
        148 => (-23, 0),
        149 => (-14, -13),
        150 => (-2, 8),
        151 => (17, -5),
        152 => (15, 0),
        153 => (24, -10),
        154 => (5, -1),
        155 => (49, 3),
        156 => (22, -1),
        157 => (14, 11),
        158 => (-11, 3),
        159 => (8, 7),
        160 => (14, 2),
        161 => (36, 21),
        162 => (26, 9),
        163 => (21, 10),
        164 => (10, 2),
        165 => (-14, 8),
        166 => (-1, -2),
        167 => (-14, 8),
        168 => (-1, 14),
        169 => (25, 12),
        170 => (22, 11),
        171 => (1, 5),
        172 => (-7, 6),
        173 => (22, -16),
        174 => (6, 1),
        175 => (14, 6),
        176 => (7, 6),
        177 => (13, 9),
        178 => (14, 13),
        179 => (11, 6),
        180 => (15, -9),
        181 => (30, -6),
        182 => (36, 12),
        183 => (12, -13),
        184 => (26, -17),
        185 => (1, -4),
        186 => (9, -1),
        187 => (26, -14),
        188 => (36, -5),
        189 => (33, -10),
        190 => (14, -4),
        191 => (35, 2),
        192 => (17, -12),
        193 => (-3, -8),
        194 => (6, -11),
        195 => (3, 3),
        196 => (29, -19),
        197 => (42, -22),
        198 => (8, 14),
        199 => (-19, 27),
        200 => (-28, 42),
        201 => (-38, 39),
        202 => (-21, 31),
        203 => (17, 20),
        204 => (18, 16),
        205 => (44, 7),
        206 => (-2, 15),
        207 => (-8, 31),
        208 => (12, 37),
        209 => (34, 25),
        210 => (15, 26),
        211 => (34, 14),
        212 => (37, 4),
        213 => (69, -10),
        214 => (-15, 15),
        215 => (24, 13),
        216 => (18, 17),
        217 => (26, 14),
        218 => (58, -3),
        219 => (58, -9),
        220 => (114, -22),
        221 => (71, -25),
        222 => (-23, 19),
        223 => (-1, 13),
        224 => (0, 22),
        225 => (5, 17),
        226 => (16, -1),
        227 => (15, -8),
        228 => (29, -10),
        229 => (25, -17),
        230 => (-41, 10),
        231 => (-40, 12),
        232 => (-29, 12),
        233 => (-15, 8),
        234 => (-15, 5),
        235 => (-34, 4),
        236 => (0, -12),
        237 => (-18, -13),
        238 => (-48, 2),
        239 => (-38, -3),
        240 => (-28, -6),
        241 => (-26, -2),
        242 => (-17, -9),
        243 => (-20, -19),
        244 => (19, -42),
        245 => (-8, -36),
        246 => (-49, -8),
        247 => (-36, -7),
        248 => (-14, -11),
        249 => (-13, -11),
        250 => (-7, -20),
        251 => (-9, -26),
        252 => (8, -35),
        253 => (-26, -25),
        254 => (-26, -10),
        255 => (-19, -10),
        256 => (-3, -5),
        257 => (5, -9),
        258 => (12, -19),
        259 => (-3, -16),
        260 => (9, -25),
        261 => (-20, -26),
        262 => (-25, -16),
        263 => (-69, 25),
        264 => (-56, 61),
        265 => (-34, 51),
        266 => (-51, 58),
        267 => (-40, 52),
        268 => (31, -30),
        269 => (-12, 0),
        270 => (8, -33),
        271 => (-35, 13),
        272 => (-40, 60),
        273 => (-54, 84),
        274 => (-73, 118),
        275 => (-21, 60),
        276 => (-29, 41),
        277 => (53, 17),
        278 => (11, -23),
        279 => (-1, -8),
        280 => (-10, 40),
        281 => (-11, 56),
        282 => (-9, 71),
        283 => (17, 53),
        284 => (36, 13),
        285 => (16, 23),
        286 => (-6, -7),
        287 => (-3, 9),
        288 => (-15, 30),
        289 => (-18, 57),
        290 => (-17, 68),
        291 => (-3, 53),
        292 => (11, 49),
        293 => (18, 23),
        294 => (6, -20),
        295 => (-15, 18),
        296 => (-12, 19),
        297 => (-5, 40),
        298 => (-5, 41),
        299 => (-8, 33),
        300 => (11, 17),
        301 => (23, 6),
        302 => (0, -36),
        303 => (6, -19),
        304 => (-5, 4),
        305 => (-4, 5),
        306 => (2, 8),
        307 => (8, -2),
        308 => (24, -25),
        309 => (27, -38),
        310 => (18, -52),
        311 => (6, -47),
        312 => (17, -48),
        313 => (22, -43),
        314 => (18, -36),
        315 => (30, -74),
        316 => (38, -111),
        317 => (67, -141),
        318 => (8, -57),
        319 => (13, -58),
        320 => (22, -62),
        321 => (30, -43),
        322 => (26, -65),
        323 => (5, -64),
        324 => (32, -92),
        325 => (34, -97),
        326 => (24, -123),
        327 => (18, -51),
        328 => (53, -32),
        329 => (-119, 33),
        330 => (-55, 9),
        331 => (5, 9),
        332 => (84, -6),
        333 => (184, -148),
        334 => (-133, 9),
        335 => (-30, 45),
        336 => (-76, 61),
        337 => (60, 41),
        338 => (-1, 65),
        339 => (-4, 83),
        340 => (50, 65),
        341 => (-9, 26),
        342 => (-151, 28),
        343 => (25, 52),
        344 => (-66, 80),
        345 => (-95, 95),
        346 => (-40, 95),
        347 => (67, 82),
        348 => (25, 80),
        349 => (-31, 38),
        350 => (-108, 15),
        351 => (-88, 59),
        352 => (-114, 87),
        353 => (-173, 105),
        354 => (-162, 105),
        355 => (-110, 97),
        356 => (-107, 81),
        357 => (-171, 48),
        358 => (-112, 4),
        359 => (-85, 41),
        360 => (-120, 74),
        361 => (-167, 97),
        362 => (-151, 93),
        363 => (-105, 74),
        364 => (-109, 57),
        365 => (-194, 42),
        366 => (-53, -11),
        367 => (-2, 20),
        368 => (-69, 49),
        369 => (-86, 65),
        370 => (-72, 63),
        371 => (-74, 51),
        372 => (-21, 25),
        373 => (-81, 14),
        374 => (53, -32),
        375 => (15, 4),
        376 => (-2, 20),
        377 => (-48, 34),
        378 => (-48, 38),
        379 => (-27, 26),
        380 => (34, 1),
        381 => (27, -23),
        382 => (30, -85),
        383 => (75, -55),
        384 => (40, -24),
        385 => (-79, -3),
        386 => (0, -27),
        387 => (-45, -7),
        388 => (47, -42),
        389 => (37, -87),
        390 => (0, 0),
        391 => (0, 0),
        392 => (0, 0),
        393 => (0, 0),
        394 => (0, 0),
        395 => (0, 0),
        396 => (0, 0),
        397 => (0, 0),
        398 => (43, 170),
        399 => (59, 163),
        400 => (42, 162),
        401 => (59, 125),
        402 => (46, 125),
        403 => (39, 136),
        404 => (-1, 164),
        405 => (-20, 175),
        406 => (18, 186),
        407 => (41, 182),
        408 => (27, 157),
        409 => (15, 86),
        410 => (4, 118),
        411 => (3, 142),
        412 => (-48, 151),
        413 => (-67, 183),
        414 => (13, 90),
        415 => (4, 85),
        416 => (24, 65),
        417 => (21, 56),
        418 => (2, 54),
        419 => (11, 66),
        420 => (-39, 88),
        421 => (-29, 97),
        422 => (-11, 48),
        423 => (-18, 35),
        424 => (-31, 34),
        425 => (-18, 24),
        426 => (-27, 28),
        427 => (-14, 32),
        428 => (-31, 50),
        429 => (-25, 49),
        430 => (-16, -5),
        431 => (-33, 6),
        432 => (-35, 11),
        433 => (-31, -1),
        434 => (-29, 2),
        435 => (-14, 2),
        436 => (-33, 25),
        437 => (-7, 3),
        438 => (-28, -5),
        439 => (-19, -4),
        440 => (-31, 7),
        441 => (-29, 1),
        442 => (-14, -18),
        443 => (-12, -5),
        444 => (1, -3),
        445 => (-20, 4),
        446 => (0, 0),
        447 => (0, 0),
        448 => (0, 0),
        449 => (0, 0),
        450 => (0, 0),
        451 => (0, 0),
        452 => (0, 0),
        453 => (0, 0),
        454 => (-89, -19),
        455 => (55, 79),
        456 => (87, 122),
        457 => (101, 155),
        458 => (117, 168),
        459 => (119, 184),
        460 => (134, 188),
        461 => (149, 192),
        462 => (165, 185),
        463 => (58, -94),
        464 => (34, 29),
        465 => (84, 101),
        466 => (99, 137),
        467 => (117, 152),
        468 => (129, 163),
        469 => (138, 177),
        470 => (145, 184),
        471 => (149, 193),
        472 => (153, 194),
        473 => (156, 198),
        474 => (169, 189),
        475 => (173, 193),
        476 => (175, 181),
        477 => (79, 78),
        478 => (105, 194),
        479 => (135, 255),
        480 => (147, 274),
        481 => (157, 285),
        482 => (163, 294),
        483 => (168, 301),
        484 => (174, 308),
        485 => (182, 309),
        486 => (193, 313),
        487 => (203, 318),
        488 => (211, 324),
        489 => (218, 330),
        490 => (222, 330),
        491 => (215, 330),
        492 => (0, 0),
        493 => (0, 0),
        494 => (-46, -17),
        495 => (326, 123),
        496 => (292, 404),
        497 => (328, 450),
        498 => (338, 473),
        499 => (346, 491),
        500 => (354, 512),
        501 => (359, 546),
        502 => (366, 552),
        503 => (373, 560),
        504 => (378, 571),
        505 => (385, 572),
        506 => (387, 578),
        507 => (389, 588),
        508 => (390, 592),
        509 => (388, 605),
        510 => (388, 612),
        511 => (388, 615),
        512 => (397, 618),
        513 => (408, 603),
        514 => (427, 601),
        515 => (447, 584),
        516 => (450, 592),
        517 => (609, 511),
        518 => (510, 550),
        519 => (425, 578),
        520 => (62, -25),
        521 => (55, -19),
        522 => (26, -6),
        523 => (-26, -9),
        524 => (-115, 22),
        525 => (-229, 79),
        526 => (-346, 135),
        527 => (-512, 193),
        528 => (-277, -81),
        529 => (31, 89),
        _ => (0, 0),
    }
}

} // verus!
