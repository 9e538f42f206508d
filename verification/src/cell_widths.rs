//! The codepoint-width classification table: sorted, pairwise disjoint,
//! inclusive codepoint ranges, each mapped to a cell width of 0, 1 or 2.
//! The ranges come from Unicode East-Asian-Width data together with
//! zero-width combining marks and format characters; control characters are
//! mapped to width 0 by policy. A codepoint not covered by any range
//! occupies one cell.

use vstd::prelude::*;

verus! {

/// Number of ranges in the table.
pub const TABLE_LEN: usize = 447;

/// Table ranges 0 through 63, by index.
pub open spec fn table_entry_a(i: int) -> (u32, u32, u32) {
    if i == 0 { (0, 0, 0) } else if i == 1 { (1, 31, 0) } else if i == 2 { (127, 159, 0) } else if i == 3 { (768, 879, 0) } else if i == 4 { (1155, 1161, 0) } else if i == 5 { (1425, 1469, 0) } else if i == 6 { (1471, 1471, 0) } else if i == 7 { (1473, 1474, 0) } else if i == 8 { (1476, 1477, 0) } else if i == 9 { (1479, 1479, 0) } else if i == 10 { (1552, 1562, 0) } else if i == 11 { (1611, 1631, 0) } else if i == 12 { (1648, 1648, 0) } else if i == 13 { (1750, 1756, 0) } else if i == 14 { (1759, 1764, 0) } else if i == 15 { (1767, 1768, 0) } else if i == 16 { (1770, 1773, 0) } else if i == 17 { (1809, 1809, 0) } else if i == 18 { (1840, 1866, 0) } else if i == 19 { (1958, 1968, 0) } else if i == 20 { (2027, 2035, 0) } else if i == 21 { (2045, 2045, 0) } else if i == 22 { (2070, 2073, 0) } else if i == 23 { (2075, 2083, 0) } else if i == 24 { (2085, 2087, 0) } else if i == 25 { (2089, 2093, 0) } else if i == 26 { (2137, 2139, 0) } else if i == 27 { (2259, 2273, 0) } else if i == 28 { (2275, 2306, 0) } else if i == 29 { (2362, 2362, 0) } else if i == 30 { (2364, 2364, 0) } else if i == 31 { (2369, 2376, 0) } else if i == 32 { (2381, 2381, 0) } else if i == 33 { (2385, 2391, 0) } else if i == 34 { (2402, 2403, 0) } else if i == 35 { (2433, 2433, 0) } else if i == 36 { (2492, 2492, 0) } else if i == 37 { (2497, 2500, 0) } else if i == 38 { (2509, 2509, 0) } else if i == 39 { (2530, 2531, 0) } else if i == 40 { (2558, 2558, 0) } else if i == 41 { (2561, 2562, 0) } else if i == 42 { (2620, 2620, 0) } else if i == 43 { (2625, 2626, 0) } else if i == 44 { (2631, 2632, 0) } else if i == 45 { (2635, 2637, 0) } else if i == 46 { (2641, 2641, 0) } else if i == 47 { (2672, 2673, 0) } else if i == 48 { (2677, 2677, 0) } else if i == 49 { (2689, 2690, 0) } else if i == 50 { (2748, 2748, 0) } else if i == 51 { (2753, 2757, 0) } else if i == 52 { (2759, 2760, 0) } else if i == 53 { (2765, 2765, 0) } else if i == 54 { (2786, 2787, 0) } else if i == 55 { (2810, 2815, 0) } else if i == 56 { (2817, 2817, 0) } else if i == 57 { (2876, 2876, 0) } else if i == 58 { (2879, 2879, 0) } else if i == 59 { (2881, 2884, 0) } else if i == 60 { (2893, 2893, 0) } else if i == 61 { (2901, 2902, 0) } else if i == 62 { (2914, 2915, 0) } else { (2946, 2946, 0) }
}

/// Table ranges 64 through 127, by index.
pub open spec fn table_entry_b(i: int) -> (u32, u32, u32) {
    if i == 64 { (3008, 3008, 0) } else if i == 65 { (3021, 3021, 0) } else if i == 66 { (3072, 3072, 0) } else if i == 67 { (3076, 3076, 0) } else if i == 68 { (3134, 3136, 0) } else if i == 69 { (3142, 3144, 0) } else if i == 70 { (3146, 3149, 0) } else if i == 71 { (3157, 3158, 0) } else if i == 72 { (3170, 3171, 0) } else if i == 73 { (3201, 3201, 0) } else if i == 74 { (3260, 3260, 0) } else if i == 75 { (3263, 3263, 0) } else if i == 76 { (3270, 3270, 0) } else if i == 77 { (3276, 3277, 0) } else if i == 78 { (3298, 3299, 0) } else if i == 79 { (3328, 3329, 0) } else if i == 80 { (3387, 3388, 0) } else if i == 81 { (3393, 3396, 0) } else if i == 82 { (3405, 3405, 0) } else if i == 83 { (3426, 3427, 0) } else if i == 84 { (3457, 3457, 0) } else if i == 85 { (3530, 3530, 0) } else if i == 86 { (3538, 3540, 0) } else if i == 87 { (3542, 3542, 0) } else if i == 88 { (3633, 3633, 0) } else if i == 89 { (3636, 3642, 0) } else if i == 90 { (3655, 3662, 0) } else if i == 91 { (3761, 3761, 0) } else if i == 92 { (3764, 3772, 0) } else if i == 93 { (3784, 3789, 0) } else if i == 94 { (3864, 3865, 0) } else if i == 95 { (3893, 3893, 0) } else if i == 96 { (3895, 3895, 0) } else if i == 97 { (3897, 3897, 0) } else if i == 98 { (3953, 3966, 0) } else if i == 99 { (3968, 3972, 0) } else if i == 100 { (3974, 3975, 0) } else if i == 101 { (3981, 3991, 0) } else if i == 102 { (3993, 4028, 0) } else if i == 103 { (4038, 4038, 0) } else if i == 104 { (4141, 4144, 0) } else if i == 105 { (4146, 4151, 0) } else if i == 106 { (4153, 4154, 0) } else if i == 107 { (4157, 4158, 0) } else if i == 108 { (4184, 4185, 0) } else if i == 109 { (4190, 4192, 0) } else if i == 110 { (4209, 4212, 0) } else if i == 111 { (4226, 4226, 0) } else if i == 112 { (4229, 4230, 0) } else if i == 113 { (4237, 4237, 0) } else if i == 114 { (4253, 4253, 0) } else if i == 115 { (4352, 4447, 2) } else if i == 116 { (4957, 4959, 0) } else if i == 117 { (5906, 5908, 0) } else if i == 118 { (5938, 5940, 0) } else if i == 119 { (5970, 5971, 0) } else if i == 120 { (6002, 6003, 0) } else if i == 121 { (6068, 6069, 0) } else if i == 122 { (6071, 6077, 0) } else if i == 123 { (6086, 6086, 0) } else if i == 124 { (6089, 6099, 0) } else if i == 125 { (6109, 6109, 0) } else if i == 126 { (6155, 6157, 0) } else { (6277, 6278, 0) }
}

/// Table ranges 128 through 191, by index.
pub open spec fn table_entry_c(i: int) -> (u32, u32, u32) {
    if i == 128 { (6313, 6313, 0) } else if i == 129 { (6432, 6434, 0) } else if i == 130 { (6439, 6440, 0) } else if i == 131 { (6450, 6450, 0) } else if i == 132 { (6457, 6459, 0) } else if i == 133 { (6679, 6680, 0) } else if i == 134 { (6683, 6683, 0) } else if i == 135 { (6742, 6742, 0) } else if i == 136 { (6744, 6750, 0) } else if i == 137 { (6752, 6752, 0) } else if i == 138 { (6754, 6754, 0) } else if i == 139 { (6757, 6764, 0) } else if i == 140 { (6771, 6780, 0) } else if i == 141 { (6783, 6783, 0) } else if i == 142 { (6832, 6848, 0) } else if i == 143 { (6912, 6915, 0) } else if i == 144 { (6964, 6964, 0) } else if i == 145 { (6966, 6970, 0) } else if i == 146 { (6972, 6972, 0) } else if i == 147 { (6978, 6978, 0) } else if i == 148 { (7019, 7027, 0) } else if i == 149 { (7040, 7041, 0) } else if i == 150 { (7074, 7077, 0) } else if i == 151 { (7080, 7081, 0) } else if i == 152 { (7083, 7085, 0) } else if i == 153 { (7142, 7142, 0) } else if i == 154 { (7144, 7145, 0) } else if i == 155 { (7149, 7149, 0) } else if i == 156 { (7151, 7153, 0) } else if i == 157 { (7212, 7219, 0) } else if i == 158 { (7222, 7223, 0) } else if i == 159 { (7376, 7378, 0) } else if i == 160 { (7380, 7392, 0) } else if i == 161 { (7394, 7400, 0) } else if i == 162 { (7405, 7405, 0) } else if i == 163 { (7412, 7412, 0) } else if i == 164 { (7416, 7417, 0) } else if i == 165 { (7616, 7673, 0) } else if i == 166 { (7675, 7679, 0) } else if i == 167 { (8203, 8207, 0) } else if i == 168 { (8232, 8238, 0) } else if i == 169 { (8288, 8291, 0) } else if i == 170 { (8400, 8432, 0) } else if i == 171 { (8986, 8987, 2) } else if i == 172 { (9001, 9002, 2) } else if i == 173 { (9193, 9196, 2) } else if i == 174 { (9200, 9200, 2) } else if i == 175 { (9203, 9203, 2) } else if i == 176 { (9725, 9726, 2) } else if i == 177 { (9748, 9749, 2) } else if i == 178 { (9800, 9811, 2) } else if i == 179 { (9855, 9855, 2) } else if i == 180 { (9875, 9875, 2) } else if i == 181 { (9889, 9889, 2) } else if i == 182 { (9898, 9899, 2) } else if i == 183 { (9917, 9918, 2) } else if i == 184 { (9924, 9925, 2) } else if i == 185 { (9934, 9934, 2) } else if i == 186 { (9940, 9940, 2) } else if i == 187 { (9962, 9962, 2) } else if i == 188 { (9970, 9971, 2) } else if i == 189 { (9973, 9973, 2) } else if i == 190 { (9978, 9978, 2) } else { (9981, 9981, 2) }
}

/// Table ranges 192 through 255, by index.
pub open spec fn table_entry_d(i: int) -> (u32, u32, u32) {
    if i == 192 { (9989, 9989, 2) } else if i == 193 { (9994, 9995, 2) } else if i == 194 { (10024, 10024, 2) } else if i == 195 { (10060, 10060, 2) } else if i == 196 { (10062, 10062, 2) } else if i == 197 { (10067, 10069, 2) } else if i == 198 { (10071, 10071, 2) } else if i == 199 { (10133, 10135, 2) } else if i == 200 { (10160, 10160, 2) } else if i == 201 { (10175, 10175, 2) } else if i == 202 { (11035, 11036, 2) } else if i == 203 { (11088, 11088, 2) } else if i == 204 { (11093, 11093, 2) } else if i == 205 { (11503, 11505, 0) } else if i == 206 { (11647, 11647, 0) } else if i == 207 { (11744, 11775, 0) } else if i == 208 { (11904, 11929, 2) } else if i == 209 { (11931, 12019, 2) } else if i == 210 { (12032, 12245, 2) } else if i == 211 { (12272, 12283, 2) } else if i == 212 { (12288, 12329, 2) } else if i == 213 { (12330, 12333, 0) } else if i == 214 { (12334, 12350, 2) } else if i == 215 { (12353, 12438, 2) } else if i == 216 { (12441, 12442, 0) } else if i == 217 { (12443, 12543, 2) } else if i == 218 { (12549, 12591, 2) } else if i == 219 { (12593, 12686, 2) } else if i == 220 { (12688, 12771, 2) } else if i == 221 { (12784, 12830, 2) } else if i == 222 { (12832, 12871, 2) } else if i == 223 { (12880, 19903, 2) } else if i == 224 { (19968, 42124, 2) } else if i == 225 { (42128, 42182, 2) } else if i == 226 { (42607, 42610, 0) } else if i == 227 { (42612, 42621, 0) } else if i == 228 { (42654, 42655, 0) } else if i == 229 { (42736, 42737, 0) } else if i == 230 { (43010, 43010, 0) } else if i == 231 { (43014, 43014, 0) } else if i == 232 { (43019, 43019, 0) } else if i == 233 { (43045, 43046, 0) } else if i == 234 { (43052, 43052, 0) } else if i == 235 { (43204, 43205, 0) } else if i == 236 { (43232, 43249, 0) } else if i == 237 { (43263, 43263, 0) } else if i == 238 { (43302, 43309, 0) } else if i == 239 { (43335, 43345, 0) } else if i == 240 { (43360, 43388, 2) } else if i == 241 { (43392, 43394, 0) } else if i == 242 { (43443, 43443, 0) } else if i == 243 { (43446, 43449, 0) } else if i == 244 { (43452, 43453, 0) } else if i == 245 { (43493, 43493, 0) } else if i == 246 { (43561, 43566, 0) } else if i == 247 { (43569, 43570, 0) } else if i == 248 { (43573, 43574, 0) } else if i == 249 { (43587, 43587, 0) } else if i == 250 { (43596, 43596, 0) } else if i == 251 { (43644, 43644, 0) } else if i == 252 { (43696, 43696, 0) } else if i == 253 { (43698, 43700, 0) } else if i == 254 { (43703, 43704, 0) } else { (43710, 43711, 0) }
}

/// Table ranges 256 through 319, by index.
pub open spec fn table_entry_e(i: int) -> (u32, u32, u32) {
    if i == 256 { (43713, 43713, 0) } else if i == 257 { (43756, 43757, 0) } else if i == 258 { (43766, 43766, 0) } else if i == 259 { (44005, 44005, 0) } else if i == 260 { (44008, 44008, 0) } else if i == 261 { (44013, 44013, 0) } else if i == 262 { (44032, 55203, 2) } else if i == 263 { (63744, 64255, 2) } else if i == 264 { (64286, 64286, 0) } else if i == 265 { (65024, 65039, 0) } else if i == 266 { (65040, 65049, 2) } else if i == 267 { (65056, 65071, 0) } else if i == 268 { (65072, 65106, 2) } else if i == 269 { (65108, 65126, 2) } else if i == 270 { (65128, 65131, 2) } else if i == 271 { (65281, 65376, 2) } else if i == 272 { (65504, 65510, 2) } else if i == 273 { (66045, 66045, 0) } else if i == 274 { (66272, 66272, 0) } else if i == 275 { (66422, 66426, 0) } else if i == 276 { (68097, 68099, 0) } else if i == 277 { (68101, 68102, 0) } else if i == 278 { (68108, 68111, 0) } else if i == 279 { (68152, 68154, 0) } else if i == 280 { (68159, 68159, 0) } else if i == 281 { (68325, 68326, 0) } else if i == 282 { (68900, 68903, 0) } else if i == 283 { (69291, 69292, 0) } else if i == 284 { (69446, 69456, 0) } else if i == 285 { (69633, 69633, 0) } else if i == 286 { (69688, 69702, 0) } else if i == 287 { (69759, 69761, 0) } else if i == 288 { (69811, 69814, 0) } else if i == 289 { (69817, 69818, 0) } else if i == 290 { (69888, 69890, 0) } else if i == 291 { (69927, 69931, 0) } else if i == 292 { (69933, 69940, 0) } else if i == 293 { (70003, 70003, 0) } else if i == 294 { (70016, 70017, 0) } else if i == 295 { (70070, 70078, 0) } else if i == 296 { (70089, 70092, 0) } else if i == 297 { (70095, 70095, 0) } else if i == 298 { (70191, 70193, 0) } else if i == 299 { (70196, 70196, 0) } else if i == 300 { (70198, 70199, 0) } else if i == 301 { (70206, 70206, 0) } else if i == 302 { (70367, 70367, 0) } else if i == 303 { (70371, 70378, 0) } else if i == 304 { (70400, 70401, 0) } else if i == 305 { (70459, 70460, 0) } else if i == 306 { (70464, 70464, 0) } else if i == 307 { (70502, 70508, 0) } else if i == 308 { (70512, 70516, 0) } else if i == 309 { (70712, 70719, 0) } else if i == 310 { (70722, 70724, 0) } else if i == 311 { (70726, 70726, 0) } else if i == 312 { (70750, 70750, 0) } else if i == 313 { (70835, 70840, 0) } else if i == 314 { (70842, 70842, 0) } else if i == 315 { (70847, 70848, 0) } else if i == 316 { (70850, 70851, 0) } else if i == 317 { (71090, 71093, 0) } else if i == 318 { (71100, 71101, 0) } else { (71103, 71104, 0) }
}

/// Table ranges 320 through 383, by index.
pub open spec fn table_entry_f(i: int) -> (u32, u32, u32) {
    if i == 320 { (71132, 71133, 0) } else if i == 321 { (71219, 71226, 0) } else if i == 322 { (71229, 71229, 0) } else if i == 323 { (71231, 71232, 0) } else if i == 324 { (71339, 71339, 0) } else if i == 325 { (71341, 71341, 0) } else if i == 326 { (71344, 71349, 0) } else if i == 327 { (71351, 71351, 0) } else if i == 328 { (71453, 71455, 0) } else if i == 329 { (71458, 71461, 0) } else if i == 330 { (71463, 71467, 0) } else if i == 331 { (71727, 71735, 0) } else if i == 332 { (71737, 71738, 0) } else if i == 333 { (71995, 71996, 0) } else if i == 334 { (71998, 71998, 0) } else if i == 335 { (72003, 72003, 0) } else if i == 336 { (72148, 72151, 0) } else if i == 337 { (72154, 72155, 0) } else if i == 338 { (72160, 72160, 0) } else if i == 339 { (72193, 72202, 0) } else if i == 340 { (72243, 72248, 0) } else if i == 341 { (72251, 72254, 0) } else if i == 342 { (72263, 72263, 0) } else if i == 343 { (72273, 72278, 0) } else if i == 344 { (72281, 72283, 0) } else if i == 345 { (72330, 72342, 0) } else if i == 346 { (72344, 72345, 0) } else if i == 347 { (72752, 72758, 0) } else if i == 348 { (72760, 72765, 0) } else if i == 349 { (72767, 72767, 0) } else if i == 350 { (72850, 72871, 0) } else if i == 351 { (72874, 72880, 0) } else if i == 352 { (72882, 72883, 0) } else if i == 353 { (72885, 72886, 0) } else if i == 354 { (73009, 73014, 0) } else if i == 355 { (73018, 73018, 0) } else if i == 356 { (73020, 73021, 0) } else if i == 357 { (73023, 73029, 0) } else if i == 358 { (73031, 73031, 0) } else if i == 359 { (73104, 73105, 0) } else if i == 360 { (73109, 73109, 0) } else if i == 361 { (73111, 73111, 0) } else if i == 362 { (73459, 73460, 0) } else if i == 363 { (92912, 92916, 0) } else if i == 364 { (92976, 92982, 0) } else if i == 365 { (94031, 94031, 0) } else if i == 366 { (94095, 94098, 0) } else if i == 367 { (94176, 94179, 2) } else if i == 368 { (94180, 94180, 0) } else if i == 369 { (94192, 94193, 2) } else if i == 370 { (94208, 100343, 2) } else if i == 371 { (100352, 101589, 2) } else if i == 372 { (101632, 101640, 2) } else if i == 373 { (110592, 110878, 2) } else if i == 374 { (110928, 110930, 2) } else if i == 375 { (110948, 110951, 2) } else if i == 376 { (110960, 111355, 2) } else if i == 377 { (113821, 113822, 0) } else if i == 378 { (119143, 119145, 0) } else if i == 379 { (119163, 119170, 0) } else if i == 380 { (119173, 119179, 0) } else if i == 381 { (119210, 119213, 0) } else if i == 382 { (119362, 119364, 0) } else { (121344, 121398, 0) }
}

/// Table ranges 384 through 446, by index.
pub open spec fn table_entry_g(i: int) -> (u32, u32, u32) {
    if i == 384 { (121403, 121452, 0) } else if i == 385 { (121461, 121461, 0) } else if i == 386 { (121476, 121476, 0) } else if i == 387 { (121499, 121503, 0) } else if i == 388 { (121505, 121519, 0) } else if i == 389 { (122880, 122886, 0) } else if i == 390 { (122888, 122904, 0) } else if i == 391 { (122907, 122913, 0) } else if i == 392 { (122915, 122916, 0) } else if i == 393 { (122918, 122922, 0) } else if i == 394 { (123184, 123190, 0) } else if i == 395 { (123628, 123631, 0) } else if i == 396 { (125136, 125142, 0) } else if i == 397 { (125252, 125258, 0) } else if i == 398 { (126980, 126980, 2) } else if i == 399 { (127183, 127183, 2) } else if i == 400 { (127374, 127374, 2) } else if i == 401 { (127377, 127386, 2) } else if i == 402 { (127488, 127490, 2) } else if i == 403 { (127504, 127547, 2) } else if i == 404 { (127552, 127560, 2) } else if i == 405 { (127568, 127569, 2) } else if i == 406 { (127584, 127589, 2) } else if i == 407 { (127744, 127776, 2) } else if i == 408 { (127789, 127797, 2) } else if i == 409 { (127799, 127868, 2) } else if i == 410 { (127870, 127891, 2) } else if i == 411 { (127904, 127946, 2) } else if i == 412 { (127951, 127955, 2) } else if i == 413 { (127968, 127984, 2) } else if i == 414 { (127988, 127988, 2) } else if i == 415 { (127992, 128062, 2) } else if i == 416 { (128064, 128064, 2) } else if i == 417 { (128066, 128252, 2) } else if i == 418 { (128255, 128317, 2) } else if i == 419 { (128331, 128334, 2) } else if i == 420 { (128336, 128359, 2) } else if i == 421 { (128378, 128378, 2) } else if i == 422 { (128405, 128406, 2) } else if i == 423 { (128420, 128420, 2) } else if i == 424 { (128507, 128591, 2) } else if i == 425 { (128640, 128709, 2) } else if i == 426 { (128716, 128716, 2) } else if i == 427 { (128720, 128722, 2) } else if i == 428 { (128725, 128727, 2) } else if i == 429 { (128747, 128748, 2) } else if i == 430 { (128756, 128764, 2) } else if i == 431 { (128992, 129003, 2) } else if i == 432 { (129292, 129338, 2) } else if i == 433 { (129340, 129349, 2) } else if i == 434 { (129351, 129400, 2) } else if i == 435 { (129402, 129483, 2) } else if i == 436 { (129485, 129535, 2) } else if i == 437 { (129648, 129652, 2) } else if i == 438 { (129656, 129658, 2) } else if i == 439 { (129664, 129670, 2) } else if i == 440 { (129680, 129704, 2) } else if i == 441 { (129712, 129718, 2) } else if i == 442 { (129728, 129730, 2) } else if i == 443 { (129744, 129750, 2) } else if i == 444 { (131072, 196605, 2) } else if i == 445 { (196608, 262141, 2) } else { (917760, 917999, 0) }
}

/// The range at index `i` of the table.
pub open spec fn table_entry(i: int) -> (u32, u32, u32) {
    if i < 64 { table_entry_a(i) } else if i < 128 { table_entry_b(i) } else if i < 192 { table_entry_c(i) } else if i < 256 { table_entry_d(i) } else if i < 320 { table_entry_e(i) } else if i < 384 { table_entry_f(i) } else { table_entry_g(i) }
}

/// The whole table as a sequence of ranges.
pub open spec fn cell_width_table() -> Seq<(u32, u32, u32)> {
    Seq::new(TABLE_LEN as nat, |i: int| table_entry(i))
}

fn table_entry_a_exec(i: usize) -> (e: (u32, u32, u32))
    requires
        0 <= i < 64,
    ensures
        e == table_entry_a(i as int),
{
    if i == 0 { (0, 0, 0) } else if i == 1 { (1, 31, 0) } else if i == 2 { (127, 159, 0) } else if i == 3 { (768, 879, 0) } else if i == 4 { (1155, 1161, 0) } else if i == 5 { (1425, 1469, 0) } else if i == 6 { (1471, 1471, 0) } else if i == 7 { (1473, 1474, 0) } else if i == 8 { (1476, 1477, 0) } else if i == 9 { (1479, 1479, 0) } else if i == 10 { (1552, 1562, 0) } else if i == 11 { (1611, 1631, 0) } else if i == 12 { (1648, 1648, 0) } else if i == 13 { (1750, 1756, 0) } else if i == 14 { (1759, 1764, 0) } else if i == 15 { (1767, 1768, 0) } else if i == 16 { (1770, 1773, 0) } else if i == 17 { (1809, 1809, 0) } else if i == 18 { (1840, 1866, 0) } else if i == 19 { (1958, 1968, 0) } else if i == 20 { (2027, 2035, 0) } else if i == 21 { (2045, 2045, 0) } else if i == 22 { (2070, 2073, 0) } else if i == 23 { (2075, 2083, 0) } else if i == 24 { (2085, 2087, 0) } else if i == 25 { (2089, 2093, 0) } else if i == 26 { (2137, 2139, 0) } else if i == 27 { (2259, 2273, 0) } else if i == 28 { (2275, 2306, 0) } else if i == 29 { (2362, 2362, 0) } else if i == 30 { (2364, 2364, 0) } else if i == 31 { (2369, 2376, 0) } else if i == 32 { (2381, 2381, 0) } else if i == 33 { (2385, 2391, 0) } else if i == 34 { (2402, 2403, 0) } else if i == 35 { (2433, 2433, 0) } else if i == 36 { (2492, 2492, 0) } else if i == 37 { (2497, 2500, 0) } else if i == 38 { (2509, 2509, 0) } else if i == 39 { (2530, 2531, 0) } else if i == 40 { (2558, 2558, 0) } else if i == 41 { (2561, 2562, 0) } else if i == 42 { (2620, 2620, 0) } else if i == 43 { (2625, 2626, 0) } else if i == 44 { (2631, 2632, 0) } else if i == 45 { (2635, 2637, 0) } else if i == 46 { (2641, 2641, 0) } else if i == 47 { (2672, 2673, 0) } else if i == 48 { (2677, 2677, 0) } else if i == 49 { (2689, 2690, 0) } else if i == 50 { (2748, 2748, 0) } else if i == 51 { (2753, 2757, 0) } else if i == 52 { (2759, 2760, 0) } else if i == 53 { (2765, 2765, 0) } else if i == 54 { (2786, 2787, 0) } else if i == 55 { (2810, 2815, 0) } else if i == 56 { (2817, 2817, 0) } else if i == 57 { (2876, 2876, 0) } else if i == 58 { (2879, 2879, 0) } else if i == 59 { (2881, 2884, 0) } else if i == 60 { (2893, 2893, 0) } else if i == 61 { (2901, 2902, 0) } else if i == 62 { (2914, 2915, 0) } else { (2946, 2946, 0) }
}

fn table_entry_b_exec(i: usize) -> (e: (u32, u32, u32))
    requires
        64 <= i < 128,
    ensures
        e == table_entry_b(i as int),
{
    if i == 64 { (3008, 3008, 0) } else if i == 65 { (3021, 3021, 0) } else if i == 66 { (3072, 3072, 0) } else if i == 67 { (3076, 3076, 0) } else if i == 68 { (3134, 3136, 0) } else if i == 69 { (3142, 3144, 0) } else if i == 70 { (3146, 3149, 0) } else if i == 71 { (3157, 3158, 0) } else if i == 72 { (3170, 3171, 0) } else if i == 73 { (3201, 3201, 0) } else if i == 74 { (3260, 3260, 0) } else if i == 75 { (3263, 3263, 0) } else if i == 76 { (3270, 3270, 0) } else if i == 77 { (3276, 3277, 0) } else if i == 78 { (3298, 3299, 0) } else if i == 79 { (3328, 3329, 0) } else if i == 80 { (3387, 3388, 0) } else if i == 81 { (3393, 3396, 0) } else if i == 82 { (3405, 3405, 0) } else if i == 83 { (3426, 3427, 0) } else if i == 84 { (3457, 3457, 0) } else if i == 85 { (3530, 3530, 0) } else if i == 86 { (3538, 3540, 0) } else if i == 87 { (3542, 3542, 0) } else if i == 88 { (3633, 3633, 0) } else if i == 89 { (3636, 3642, 0) } else if i == 90 { (3655, 3662, 0) } else if i == 91 { (3761, 3761, 0) } else if i == 92 { (3764, 3772, 0) } else if i == 93 { (3784, 3789, 0) } else if i == 94 { (3864, 3865, 0) } else if i == 95 { (3893, 3893, 0) } else if i == 96 { (3895, 3895, 0) } else if i == 97 { (3897, 3897, 0) } else if i == 98 { (3953, 3966, 0) } else if i == 99 { (3968, 3972, 0) } else if i == 100 { (3974, 3975, 0) } else if i == 101 { (3981, 3991, 0) } else if i == 102 { (3993, 4028, 0) } else if i == 103 { (4038, 4038, 0) } else if i == 104 { (4141, 4144, 0) } else if i == 105 { (4146, 4151, 0) } else if i == 106 { (4153, 4154, 0) } else if i == 107 { (4157, 4158, 0) } else if i == 108 { (4184, 4185, 0) } else if i == 109 { (4190, 4192, 0) } else if i == 110 { (4209, 4212, 0) } else if i == 111 { (4226, 4226, 0) } else if i == 112 { (4229, 4230, 0) } else if i == 113 { (4237, 4237, 0) } else if i == 114 { (4253, 4253, 0) } else if i == 115 { (4352, 4447, 2) } else if i == 116 { (4957, 4959, 0) } else if i == 117 { (5906, 5908, 0) } else if i == 118 { (5938, 5940, 0) } else if i == 119 { (5970, 5971, 0) } else if i == 120 { (6002, 6003, 0) } else if i == 121 { (6068, 6069, 0) } else if i == 122 { (6071, 6077, 0) } else if i == 123 { (6086, 6086, 0) } else if i == 124 { (6089, 6099, 0) } else if i == 125 { (6109, 6109, 0) } else if i == 126 { (6155, 6157, 0) } else { (6277, 6278, 0) }
}

fn table_entry_c_exec(i: usize) -> (e: (u32, u32, u32))
    requires
        128 <= i < 192,
    ensures
        e == table_entry_c(i as int),
{
    if i == 128 { (6313, 6313, 0) } else if i == 129 { (6432, 6434, 0) } else if i == 130 { (6439, 6440, 0) } else if i == 131 { (6450, 6450, 0) } else if i == 132 { (6457, 6459, 0) } else if i == 133 { (6679, 6680, 0) } else if i == 134 { (6683, 6683, 0) } else if i == 135 { (6742, 6742, 0) } else if i == 136 { (6744, 6750, 0) } else if i == 137 { (6752, 6752, 0) } else if i == 138 { (6754, 6754, 0) } else if i == 139 { (6757, 6764, 0) } else if i == 140 { (6771, 6780, 0) } else if i == 141 { (6783, 6783, 0) } else if i == 142 { (6832, 6848, 0) } else if i == 143 { (6912, 6915, 0) } else if i == 144 { (6964, 6964, 0) } else if i == 145 { (6966, 6970, 0) } else if i == 146 { (6972, 6972, 0) } else if i == 147 { (6978, 6978, 0) } else if i == 148 { (7019, 7027, 0) } else if i == 149 { (7040, 7041, 0) } else if i == 150 { (7074, 7077, 0) } else if i == 151 { (7080, 7081, 0) } else if i == 152 { (7083, 7085, 0) } else if i == 153 { (7142, 7142, 0) } else if i == 154 { (7144, 7145, 0) } else if i == 155 { (7149, 7149, 0) } else if i == 156 { (7151, 7153, 0) } else if i == 157 { (7212, 7219, 0) } else if i == 158 { (7222, 7223, 0) } else if i == 159 { (7376, 7378, 0) } else if i == 160 { (7380, 7392, 0) } else if i == 161 { (7394, 7400, 0) } else if i == 162 { (7405, 7405, 0) } else if i == 163 { (7412, 7412, 0) } else if i == 164 { (7416, 7417, 0) } else if i == 165 { (7616, 7673, 0) } else if i == 166 { (7675, 7679, 0) } else if i == 167 { (8203, 8207, 0) } else if i == 168 { (8232, 8238, 0) } else if i == 169 { (8288, 8291, 0) } else if i == 170 { (8400, 8432, 0) } else if i == 171 { (8986, 8987, 2) } else if i == 172 { (9001, 9002, 2) } else if i == 173 { (9193, 9196, 2) } else if i == 174 { (9200, 9200, 2) } else if i == 175 { (9203, 9203, 2) } else if i == 176 { (9725, 9726, 2) } else if i == 177 { (9748, 9749, 2) } else if i == 178 { (9800, 9811, 2) } else if i == 179 { (9855, 9855, 2) } else if i == 180 { (9875, 9875, 2) } else if i == 181 { (9889, 9889, 2) } else if i == 182 { (9898, 9899, 2) } else if i == 183 { (9917, 9918, 2) } else if i == 184 { (9924, 9925, 2) } else if i == 185 { (9934, 9934, 2) } else if i == 186 { (9940, 9940, 2) } else if i == 187 { (9962, 9962, 2) } else if i == 188 { (9970, 9971, 2) } else if i == 189 { (9973, 9973, 2) } else if i == 190 { (9978, 9978, 2) } else { (9981, 9981, 2) }
}

fn table_entry_d_exec(i: usize) -> (e: (u32, u32, u32))
    requires
        192 <= i < 256,
    ensures
        e == table_entry_d(i as int),
{
    if i == 192 { (9989, 9989, 2) } else if i == 193 { (9994, 9995, 2) } else if i == 194 { (10024, 10024, 2) } else if i == 195 { (10060, 10060, 2) } else if i == 196 { (10062, 10062, 2) } else if i == 197 { (10067, 10069, 2) } else if i == 198 { (10071, 10071, 2) } else if i == 199 { (10133, 10135, 2) } else if i == 200 { (10160, 10160, 2) } else if i == 201 { (10175, 10175, 2) } else if i == 202 { (11035, 11036, 2) } else if i == 203 { (11088, 11088, 2) } else if i == 204 { (11093, 11093, 2) } else if i == 205 { (11503, 11505, 0) } else if i == 206 { (11647, 11647, 0) } else if i == 207 { (11744, 11775, 0) } else if i == 208 { (11904, 11929, 2) } else if i == 209 { (11931, 12019, 2) } else if i == 210 { (12032, 12245, 2) } else if i == 211 { (12272, 12283, 2) } else if i == 212 { (12288, 12329, 2) } else if i == 213 { (12330, 12333, 0) } else if i == 214 { (12334, 12350, 2) } else if i == 215 { (12353, 12438, 2) } else if i == 216 { (12441, 12442, 0) } else if i == 217 { (12443, 12543, 2) } else if i == 218 { (12549, 12591, 2) } else if i == 219 { (12593, 12686, 2) } else if i == 220 { (12688, 12771, 2) } else if i == 221 { (12784, 12830, 2) } else if i == 222 { (12832, 12871, 2) } else if i == 223 { (12880, 19903, 2) } else if i == 224 { (19968, 42124, 2) } else if i == 225 { (42128, 42182, 2) } else if i == 226 { (42607, 42610, 0) } else if i == 227 { (42612, 42621, 0) } else if i == 228 { (42654, 42655, 0) } else if i == 229 { (42736, 42737, 0) } else if i == 230 { (43010, 43010, 0) } else if i == 231 { (43014, 43014, 0) } else if i == 232 { (43019, 43019, 0) } else if i == 233 { (43045, 43046, 0) } else if i == 234 { (43052, 43052, 0) } else if i == 235 { (43204, 43205, 0) } else if i == 236 { (43232, 43249, 0) } else if i == 237 { (43263, 43263, 0) } else if i == 238 { (43302, 43309, 0) } else if i == 239 { (43335, 43345, 0) } else if i == 240 { (43360, 43388, 2) } else if i == 241 { (43392, 43394, 0) } else if i == 242 { (43443, 43443, 0) } else if i == 243 { (43446, 43449, 0) } else if i == 244 { (43452, 43453, 0) } else if i == 245 { (43493, 43493, 0) } else if i == 246 { (43561, 43566, 0) } else if i == 247 { (43569, 43570, 0) } else if i == 248 { (43573, 43574, 0) } else if i == 249 { (43587, 43587, 0) } else if i == 250 { (43596, 43596, 0) } else if i == 251 { (43644, 43644, 0) } else if i == 252 { (43696, 43696, 0) } else if i == 253 { (43698, 43700, 0) } else if i == 254 { (43703, 43704, 0) } else { (43710, 43711, 0) }
}

fn table_entry_e_exec(i: usize) -> (e: (u32, u32, u32))
    requires
        256 <= i < 320,
    ensures
        e == table_entry_e(i as int),
{
    if i == 256 { (43713, 43713, 0) } else if i == 257 { (43756, 43757, 0) } else if i == 258 { (43766, 43766, 0) } else if i == 259 { (44005, 44005, 0) } else if i == 260 { (44008, 44008, 0) } else if i == 261 { (44013, 44013, 0) } else if i == 262 { (44032, 55203, 2) } else if i == 263 { (63744, 64255, 2) } else if i == 264 { (64286, 64286, 0) } else if i == 265 { (65024, 65039, 0) } else if i == 266 { (65040, 65049, 2) } else if i == 267 { (65056, 65071, 0) } else if i == 268 { (65072, 65106, 2) } else if i == 269 { (65108, 65126, 2) } else if i == 270 { (65128, 65131, 2) } else if i == 271 { (65281, 65376, 2) } else if i == 272 { (65504, 65510, 2) } else if i == 273 { (66045, 66045, 0) } else if i == 274 { (66272, 66272, 0) } else if i == 275 { (66422, 66426, 0) } else if i == 276 { (68097, 68099, 0) } else if i == 277 { (68101, 68102, 0) } else if i == 278 { (68108, 68111, 0) } else if i == 279 { (68152, 68154, 0) } else if i == 280 { (68159, 68159, 0) } else if i == 281 { (68325, 68326, 0) } else if i == 282 { (68900, 68903, 0) } else if i == 283 { (69291, 69292, 0) } else if i == 284 { (69446, 69456, 0) } else if i == 285 { (69633, 69633, 0) } else if i == 286 { (69688, 69702, 0) } else if i == 287 { (69759, 69761, 0) } else if i == 288 { (69811, 69814, 0) } else if i == 289 { (69817, 69818, 0) } else if i == 290 { (69888, 69890, 0) } else if i == 291 { (69927, 69931, 0) } else if i == 292 { (69933, 69940, 0) } else if i == 293 { (70003, 70003, 0) } else if i == 294 { (70016, 70017, 0) } else if i == 295 { (70070, 70078, 0) } else if i == 296 { (70089, 70092, 0) } else if i == 297 { (70095, 70095, 0) } else if i == 298 { (70191, 70193, 0) } else if i == 299 { (70196, 70196, 0) } else if i == 300 { (70198, 70199, 0) } else if i == 301 { (70206, 70206, 0) } else if i == 302 { (70367, 70367, 0) } else if i == 303 { (70371, 70378, 0) } else if i == 304 { (70400, 70401, 0) } else if i == 305 { (70459, 70460, 0) } else if i == 306 { (70464, 70464, 0) } else if i == 307 { (70502, 70508, 0) } else if i == 308 { (70512, 70516, 0) } else if i == 309 { (70712, 70719, 0) } else if i == 310 { (70722, 70724, 0) } else if i == 311 { (70726, 70726, 0) } else if i == 312 { (70750, 70750, 0) } else if i == 313 { (70835, 70840, 0) } else if i == 314 { (70842, 70842, 0) } else if i == 315 { (70847, 70848, 0) } else if i == 316 { (70850, 70851, 0) } else if i == 317 { (71090, 71093, 0) } else if i == 318 { (71100, 71101, 0) } else { (71103, 71104, 0) }
}

fn table_entry_f_exec(i: usize) -> (e: (u32, u32, u32))
    requires
        320 <= i < 384,
    ensures
        e == table_entry_f(i as int),
{
    if i == 320 { (71132, 71133, 0) } else if i == 321 { (71219, 71226, 0) } else if i == 322 { (71229, 71229, 0) } else if i == 323 { (71231, 71232, 0) } else if i == 324 { (71339, 71339, 0) } else if i == 325 { (71341, 71341, 0) } else if i == 326 { (71344, 71349, 0) } else if i == 327 { (71351, 71351, 0) } else if i == 328 { (71453, 71455, 0) } else if i == 329 { (71458, 71461, 0) } else if i == 330 { (71463, 71467, 0) } else if i == 331 { (71727, 71735, 0) } else if i == 332 { (71737, 71738, 0) } else if i == 333 { (71995, 71996, 0) } else if i == 334 { (71998, 71998, 0) } else if i == 335 { (72003, 72003, 0) } else if i == 336 { (72148, 72151, 0) } else if i == 337 { (72154, 72155, 0) } else if i == 338 { (72160, 72160, 0) } else if i == 339 { (72193, 72202, 0) } else if i == 340 { (72243, 72248, 0) } else if i == 341 { (72251, 72254, 0) } else if i == 342 { (72263, 72263, 0) } else if i == 343 { (72273, 72278, 0) } else if i == 344 { (72281, 72283, 0) } else if i == 345 { (72330, 72342, 0) } else if i == 346 { (72344, 72345, 0) } else if i == 347 { (72752, 72758, 0) } else if i == 348 { (72760, 72765, 0) } else if i == 349 { (72767, 72767, 0) } else if i == 350 { (72850, 72871, 0) } else if i == 351 { (72874, 72880, 0) } else if i == 352 { (72882, 72883, 0) } else if i == 353 { (72885, 72886, 0) } else if i == 354 { (73009, 73014, 0) } else if i == 355 { (73018, 73018, 0) } else if i == 356 { (73020, 73021, 0) } else if i == 357 { (73023, 73029, 0) } else if i == 358 { (73031, 73031, 0) } else if i == 359 { (73104, 73105, 0) } else if i == 360 { (73109, 73109, 0) } else if i == 361 { (73111, 73111, 0) } else if i == 362 { (73459, 73460, 0) } else if i == 363 { (92912, 92916, 0) } else if i == 364 { (92976, 92982, 0) } else if i == 365 { (94031, 94031, 0) } else if i == 366 { (94095, 94098, 0) } else if i == 367 { (94176, 94179, 2) } else if i == 368 { (94180, 94180, 0) } else if i == 369 { (94192, 94193, 2) } else if i == 370 { (94208, 100343, 2) } else if i == 371 { (100352, 101589, 2) } else if i == 372 { (101632, 101640, 2) } else if i == 373 { (110592, 110878, 2) } else if i == 374 { (110928, 110930, 2) } else if i == 375 { (110948, 110951, 2) } else if i == 376 { (110960, 111355, 2) } else if i == 377 { (113821, 113822, 0) } else if i == 378 { (119143, 119145, 0) } else if i == 379 { (119163, 119170, 0) } else if i == 380 { (119173, 119179, 0) } else if i == 381 { (119210, 119213, 0) } else if i == 382 { (119362, 119364, 0) } else { (121344, 121398, 0) }
}

fn table_entry_g_exec(i: usize) -> (e: (u32, u32, u32))
    requires
        384 <= i < 447,
    ensures
        e == table_entry_g(i as int),
{
    if i == 384 { (121403, 121452, 0) } else if i == 385 { (121461, 121461, 0) } else if i == 386 { (121476, 121476, 0) } else if i == 387 { (121499, 121503, 0) } else if i == 388 { (121505, 121519, 0) } else if i == 389 { (122880, 122886, 0) } else if i == 390 { (122888, 122904, 0) } else if i == 391 { (122907, 122913, 0) } else if i == 392 { (122915, 122916, 0) } else if i == 393 { (122918, 122922, 0) } else if i == 394 { (123184, 123190, 0) } else if i == 395 { (123628, 123631, 0) } else if i == 396 { (125136, 125142, 0) } else if i == 397 { (125252, 125258, 0) } else if i == 398 { (126980, 126980, 2) } else if i == 399 { (127183, 127183, 2) } else if i == 400 { (127374, 127374, 2) } else if i == 401 { (127377, 127386, 2) } else if i == 402 { (127488, 127490, 2) } else if i == 403 { (127504, 127547, 2) } else if i == 404 { (127552, 127560, 2) } else if i == 405 { (127568, 127569, 2) } else if i == 406 { (127584, 127589, 2) } else if i == 407 { (127744, 127776, 2) } else if i == 408 { (127789, 127797, 2) } else if i == 409 { (127799, 127868, 2) } else if i == 410 { (127870, 127891, 2) } else if i == 411 { (127904, 127946, 2) } else if i == 412 { (127951, 127955, 2) } else if i == 413 { (127968, 127984, 2) } else if i == 414 { (127988, 127988, 2) } else if i == 415 { (127992, 128062, 2) } else if i == 416 { (128064, 128064, 2) } else if i == 417 { (128066, 128252, 2) } else if i == 418 { (128255, 128317, 2) } else if i == 419 { (128331, 128334, 2) } else if i == 420 { (128336, 128359, 2) } else if i == 421 { (128378, 128378, 2) } else if i == 422 { (128405, 128406, 2) } else if i == 423 { (128420, 128420, 2) } else if i == 424 { (128507, 128591, 2) } else if i == 425 { (128640, 128709, 2) } else if i == 426 { (128716, 128716, 2) } else if i == 427 { (128720, 128722, 2) } else if i == 428 { (128725, 128727, 2) } else if i == 429 { (128747, 128748, 2) } else if i == 430 { (128756, 128764, 2) } else if i == 431 { (128992, 129003, 2) } else if i == 432 { (129292, 129338, 2) } else if i == 433 { (129340, 129349, 2) } else if i == 434 { (129351, 129400, 2) } else if i == 435 { (129402, 129483, 2) } else if i == 436 { (129485, 129535, 2) } else if i == 437 { (129648, 129652, 2) } else if i == 438 { (129656, 129658, 2) } else if i == 439 { (129664, 129670, 2) } else if i == 440 { (129680, 129704, 2) } else if i == 441 { (129712, 129718, 2) } else if i == 442 { (129728, 129730, 2) } else if i == 443 { (129744, 129750, 2) } else if i == 444 { (131072, 196605, 2) } else if i == 445 { (196608, 262141, 2) } else { (917760, 917999, 0) }
}

/// The range at index `i` of the table.
pub fn table_entry_exec(i: usize) -> (e: (u32, u32, u32))
    requires
        i < TABLE_LEN,
    ensures
        e == table_entry(i as int),
{
    if i < 64 { table_entry_a_exec(i) } else if i < 128 { table_entry_b_exec(i) } else if i < 192 { table_entry_c_exec(i) } else if i < 256 { table_entry_d_exec(i) } else if i < 320 { table_entry_e_exec(i) } else if i < 384 { table_entry_f_exec(i) } else { table_entry_g_exec(i) }
}

/// Materialize the table.
pub fn width_table() -> (t: Vec<(u32, u32, u32)>)
    ensures
        t@ == cell_width_table(),
{
    let mut t: Vec<(u32, u32, u32)> = Vec::new();
    let mut i: usize = 0;
    while i < TABLE_LEN
        invariant
            i <= TABLE_LEN,
            t@.len() == i,
            forall|j: int| 0 <= j < i ==> t@[j] == table_entry(j),
        decreases TABLE_LEN - i,
    {
        t.push(table_entry_exec(i));
        i = i + 1;
    }
    assert(t@ =~= cell_width_table());
    t
}

proof fn lemma_table_sorted_a()
    ensures
        forall|i: int| 0 <= i < 64 ==> #[trigger] table_entry(i).1 < table_entry(i + 1).0,
        forall|i: int| 0 <= i < 64 ==> #[trigger] table_entry(i).0 <= table_entry(i).1,
        forall|i: int| 0 <= i < 64 ==> #[trigger] table_entry(i).2 <= 2,
{
}

proof fn lemma_table_sorted_b()
    ensures
        forall|i: int| 64 <= i < 128 ==> #[trigger] table_entry(i).1 < table_entry(i + 1).0,
        forall|i: int| 64 <= i < 128 ==> #[trigger] table_entry(i).0 <= table_entry(i).1,
        forall|i: int| 64 <= i < 128 ==> #[trigger] table_entry(i).2 <= 2,
{
}

proof fn lemma_table_sorted_c()
    ensures
        forall|i: int| 128 <= i < 192 ==> #[trigger] table_entry(i).1 < table_entry(i + 1).0,
        forall|i: int| 128 <= i < 192 ==> #[trigger] table_entry(i).0 <= table_entry(i).1,
        forall|i: int| 128 <= i < 192 ==> #[trigger] table_entry(i).2 <= 2,
{
}

proof fn lemma_table_sorted_d()
    ensures
        forall|i: int| 192 <= i < 256 ==> #[trigger] table_entry(i).1 < table_entry(i + 1).0,
        forall|i: int| 192 <= i < 256 ==> #[trigger] table_entry(i).0 <= table_entry(i).1,
        forall|i: int| 192 <= i < 256 ==> #[trigger] table_entry(i).2 <= 2,
{
}

proof fn lemma_table_sorted_e()
    ensures
        forall|i: int| 256 <= i < 320 ==> #[trigger] table_entry(i).1 < table_entry(i + 1).0,
        forall|i: int| 256 <= i < 320 ==> #[trigger] table_entry(i).0 <= table_entry(i).1,
        forall|i: int| 256 <= i < 320 ==> #[trigger] table_entry(i).2 <= 2,
{
}

proof fn lemma_table_sorted_f()
    ensures
        forall|i: int| 320 <= i < 384 ==> #[trigger] table_entry(i).1 < table_entry(i + 1).0,
        forall|i: int| 320 <= i < 384 ==> #[trigger] table_entry(i).0 <= table_entry(i).1,
        forall|i: int| 320 <= i < 384 ==> #[trigger] table_entry(i).2 <= 2,
{
}

proof fn lemma_table_sorted_g()
    ensures
        forall|i: int| 384 <= i < 446 ==> #[trigger] table_entry(i).1 < table_entry(i + 1).0,
        forall|i: int| 384 <= i < 447 ==> #[trigger] table_entry(i).0 <= table_entry(i).1,
        forall|i: int| 384 <= i < 447 ==> #[trigger] table_entry(i).2 <= 2,
{
}

/// The table is sorted by range start, its ranges are pairwise disjoint
/// (each range ends strictly before the next begins), each range is
/// non-empty, and every width is 0, 1 or 2.
pub proof fn lemma_table_sorted()
    ensures
        forall|i: int| 0 <= i < TABLE_LEN - 1 ==> #[trigger] table_entry(i).1 < table_entry(i + 1).0,
        forall|i: int| 0 <= i < TABLE_LEN ==> #[trigger] table_entry(i).0 <= table_entry(i).1,
        forall|i: int| 0 <= i < TABLE_LEN ==> #[trigger] table_entry(i).2 <= 2,
{
    lemma_table_sorted_a();
    lemma_table_sorted_b();
    lemma_table_sorted_c();
    lemma_table_sorted_d();
    lemma_table_sorted_e();
    lemma_table_sorted_f();
    lemma_table_sorted_g();
}

} // verus!
