//! The table of linear light, held against the curve it samples.
use vstd::prelude::*;

use crate::theme::LINEAR;

verus! {

/// `t` is, to the nearest billionth, the linear light of the channel value `c`: a
/// straight line near black, and above it the curve of exponent 12/5, stated here in
/// fifth and twelfth powers.
pub open spec fn on_curve(c: int, t: int) -> bool {
    if c <= 10 {
        (2 * t - 1) * 329460 <= 200000000000 * c <= (2 * t + 1) * 329460
    } else {
        fifth(2 * t - 1) * twelfth(10761) <= 32 * fifth(1000000000) * twelfth(40 * c + 561)
            <= fifth(2 * t + 1) * twelfth(10761)
    }
}

pub open spec fn fifth(x: int) -> int {
    x * x * x * x * x
}

pub open spec fn twelfth(x: int) -> int {
    x * x * x * x * x * x * x * x * x * x * x * x
}

proof fn lemma_curve_from_0(c: int)
    requires
        0 <= c < 32,
    ensures
        on_curve(c, LINEAR[c] as int),
{
    assert(on_curve(0, 0)
        && on_curve(1, 303527)
        && on_curve(2, 607054)
        && on_curve(3, 910581)
        && on_curve(4, 1214108)
        && on_curve(5, 1517635)
        && on_curve(6, 1821162)
        && on_curve(7, 2124689)
        && on_curve(8, 2428216)
        && on_curve(9, 2731743)
        && on_curve(10, 3035270)
        && on_curve(11, 3346536)
        && on_curve(12, 3676507)
        && on_curve(13, 4024717)
        && on_curve(14, 4391442)
        && on_curve(15, 4776953)
        && on_curve(16, 5181517)
        && on_curve(17, 5605392)
        && on_curve(18, 6048833)
        && on_curve(19, 6512091)
        && on_curve(20, 6995410)
        && on_curve(21, 7499032)
        && on_curve(22, 8023193)
        && on_curve(23, 8568126)
        && on_curve(24, 9134059)
        && on_curve(25, 9721217)
        && on_curve(26, 10329823)
        && on_curve(27, 10960094)
        && on_curve(28, 11612245)
        && on_curve(29, 12286488)
        && on_curve(30, 12983032)
        && on_curve(31, 13702083)) by (nonlinear_arith);
    assert(LINEAR[0] == 0);
    assert(LINEAR[1] == 303527);
    assert(LINEAR[2] == 607054);
    assert(LINEAR[3] == 910581);
    assert(LINEAR[4] == 1214108);
    assert(LINEAR[5] == 1517635);
    assert(LINEAR[6] == 1821162);
    assert(LINEAR[7] == 2124689);
    assert(LINEAR[8] == 2428216);
    assert(LINEAR[9] == 2731743);
    assert(LINEAR[10] == 3035270);
    assert(LINEAR[11] == 3346536);
    assert(LINEAR[12] == 3676507);
    assert(LINEAR[13] == 4024717);
    assert(LINEAR[14] == 4391442);
    assert(LINEAR[15] == 4776953);
    assert(LINEAR[16] == 5181517);
    assert(LINEAR[17] == 5605392);
    assert(LINEAR[18] == 6048833);
    assert(LINEAR[19] == 6512091);
    assert(LINEAR[20] == 6995410);
    assert(LINEAR[21] == 7499032);
    assert(LINEAR[22] == 8023193);
    assert(LINEAR[23] == 8568126);
    assert(LINEAR[24] == 9134059);
    assert(LINEAR[25] == 9721217);
    assert(LINEAR[26] == 10329823);
    assert(LINEAR[27] == 10960094);
    assert(LINEAR[28] == 11612245);
    assert(LINEAR[29] == 12286488);
    assert(LINEAR[30] == 12983032);
    assert(LINEAR[31] == 13702083);
}

proof fn lemma_curve_from_32(c: int)
    requires
        32 <= c < 64,
    ensures
        on_curve(c, LINEAR[c] as int),
{
    assert(on_curve(32, 14443844)
        && on_curve(33, 15208514)
        && on_curve(34, 15996293)
        && on_curve(35, 16807376)
        && on_curve(36, 17641954)
        && on_curve(37, 18500220)
        && on_curve(38, 19382361)
        && on_curve(39, 20288563)
        && on_curve(40, 21219010)
        && on_curve(41, 22173885)
        && on_curve(42, 23153366)
        && on_curve(43, 24157632)
        && on_curve(44, 25186860)
        && on_curve(45, 26241222)
        && on_curve(46, 27320892)
        && on_curve(47, 28426040)
        && on_curve(48, 29556834)
        && on_curve(49, 30713444)
        && on_curve(50, 31896033)
        && on_curve(51, 33104767)
        && on_curve(52, 34339807)
        && on_curve(53, 35601315)
        && on_curve(54, 36889450)
        && on_curve(55, 38204372)
        && on_curve(56, 39546235)
        && on_curve(57, 40915197)
        && on_curve(58, 42311411)
        && on_curve(59, 43735029)
        && on_curve(60, 45186204)
        && on_curve(61, 46665086)
        && on_curve(62, 48171824)
        && on_curve(63, 49706566)) by (nonlinear_arith);
    assert(LINEAR[32] == 14443844);
    assert(LINEAR[33] == 15208514);
    assert(LINEAR[34] == 15996293);
    assert(LINEAR[35] == 16807376);
    assert(LINEAR[36] == 17641954);
    assert(LINEAR[37] == 18500220);
    assert(LINEAR[38] == 19382361);
    assert(LINEAR[39] == 20288563);
    assert(LINEAR[40] == 21219010);
    assert(LINEAR[41] == 22173885);
    assert(LINEAR[42] == 23153366);
    assert(LINEAR[43] == 24157632);
    assert(LINEAR[44] == 25186860);
    assert(LINEAR[45] == 26241222);
    assert(LINEAR[46] == 27320892);
    assert(LINEAR[47] == 28426040);
    assert(LINEAR[48] == 29556834);
    assert(LINEAR[49] == 30713444);
    assert(LINEAR[50] == 31896033);
    assert(LINEAR[51] == 33104767);
    assert(LINEAR[52] == 34339807);
    assert(LINEAR[53] == 35601315);
    assert(LINEAR[54] == 36889450);
    assert(LINEAR[55] == 38204372);
    assert(LINEAR[56] == 39546235);
    assert(LINEAR[57] == 40915197);
    assert(LINEAR[58] == 42311411);
    assert(LINEAR[59] == 43735029);
    assert(LINEAR[60] == 45186204);
    assert(LINEAR[61] == 46665086);
    assert(LINEAR[62] == 48171824);
    assert(LINEAR[63] == 49706566);
}

proof fn lemma_curve_from_64(c: int)
    requires
        64 <= c < 96,
    ensures
        on_curve(c, LINEAR[c] as int),
{
    assert(on_curve(64, 51269458)
        && on_curve(65, 52860647)
        && on_curve(66, 54480276)
        && on_curve(67, 56128490)
        && on_curve(68, 57805430)
        && on_curve(69, 59511238)
        && on_curve(70, 61246054)
        && on_curve(71, 63010018)
        && on_curve(72, 64803267)
        && on_curve(73, 66625939)
        && on_curve(74, 68478170)
        && on_curve(75, 70360096)
        && on_curve(76, 72271851)
        && on_curve(77, 74213568)
        && on_curve(78, 76185381)
        && on_curve(79, 78187422)
        && on_curve(80, 80219820)
        && on_curve(81, 82282707)
        && on_curve(82, 84376212)
        && on_curve(83, 86500462)
        && on_curve(84, 88655586)
        && on_curve(85, 90841711)
        && on_curve(86, 93058963)
        && on_curve(87, 95307467)
        && on_curve(88, 97587347)
        && on_curve(89, 99898728)
        && on_curve(90, 102241733)
        && on_curve(91, 104616484)
        && on_curve(92, 107023103)
        && on_curve(93, 109461711)
        && on_curve(94, 111932428)
        && on_curve(95, 114435374)) by (nonlinear_arith);
    assert(LINEAR[64] == 51269458);
    assert(LINEAR[65] == 52860647);
    assert(LINEAR[66] == 54480276);
    assert(LINEAR[67] == 56128490);
    assert(LINEAR[68] == 57805430);
    assert(LINEAR[69] == 59511238);
    assert(LINEAR[70] == 61246054);
    assert(LINEAR[71] == 63010018);
    assert(LINEAR[72] == 64803267);
    assert(LINEAR[73] == 66625939);
    assert(LINEAR[74] == 68478170);
    assert(LINEAR[75] == 70360096);
    assert(LINEAR[76] == 72271851);
    assert(LINEAR[77] == 74213568);
    assert(LINEAR[78] == 76185381);
    assert(LINEAR[79] == 78187422);
    assert(LINEAR[80] == 80219820);
    assert(LINEAR[81] == 82282707);
    assert(LINEAR[82] == 84376212);
    assert(LINEAR[83] == 86500462);
    assert(LINEAR[84] == 88655586);
    assert(LINEAR[85] == 90841711);
    assert(LINEAR[86] == 93058963);
    assert(LINEAR[87] == 95307467);
    assert(LINEAR[88] == 97587347);
    assert(LINEAR[89] == 99898728);
    assert(LINEAR[90] == 102241733);
    assert(LINEAR[91] == 104616484);
    assert(LINEAR[92] == 107023103);
    assert(LINEAR[93] == 109461711);
    assert(LINEAR[94] == 111932428);
    assert(LINEAR[95] == 114435374);
}

proof fn lemma_curve_from_96(c: int)
    requires
        96 <= c < 128,
    ensures
        on_curve(c, LINEAR[c] as int),
{
    assert(on_curve(96, 116970668)
        && on_curve(97, 119538428)
        && on_curve(98, 122138772)
        && on_curve(99, 124771818)
        && on_curve(100, 127437680)
        && on_curve(101, 130136477)
        && on_curve(102, 132868322)
        && on_curve(103, 135633330)
        && on_curve(104, 138431615)
        && on_curve(105, 141263291)
        && on_curve(106, 144128471)
        && on_curve(107, 147027266)
        && on_curve(108, 149959790)
        && on_curve(109, 152926152)
        && on_curve(110, 155926464)
        && on_curve(111, 158960835)
        && on_curve(112, 162029376)
        && on_curve(113, 165132195)
        && on_curve(114, 168269400)
        && on_curve(115, 171441101)
        && on_curve(116, 174647404)
        && on_curve(117, 177888416)
        && on_curve(118, 181164244)
        && on_curve(119, 184474995)
        && on_curve(120, 187820772)
        && on_curve(121, 191201683)
        && on_curve(122, 194617830)
        && on_curve(123, 198069320)
        && on_curve(124, 201556254)
        && on_curve(125, 205078736)
        && on_curve(126, 208636870)
        && on_curve(127, 212230757)) by (nonlinear_arith);
    assert(LINEAR[96] == 116970668);
    assert(LINEAR[97] == 119538428);
    assert(LINEAR[98] == 122138772);
    assert(LINEAR[99] == 124771818);
    assert(LINEAR[100] == 127437680);
    assert(LINEAR[101] == 130136477);
    assert(LINEAR[102] == 132868322);
    assert(LINEAR[103] == 135633330);
    assert(LINEAR[104] == 138431615);
    assert(LINEAR[105] == 141263291);
    assert(LINEAR[106] == 144128471);
    assert(LINEAR[107] == 147027266);
    assert(LINEAR[108] == 149959790);
    assert(LINEAR[109] == 152926152);
    assert(LINEAR[110] == 155926464);
    assert(LINEAR[111] == 158960835);
    assert(LINEAR[112] == 162029376);
    assert(LINEAR[113] == 165132195);
    assert(LINEAR[114] == 168269400);
    assert(LINEAR[115] == 171441101);
    assert(LINEAR[116] == 174647404);
    assert(LINEAR[117] == 177888416);
    assert(LINEAR[118] == 181164244);
    assert(LINEAR[119] == 184474995);
    assert(LINEAR[120] == 187820772);
    assert(LINEAR[121] == 191201683);
    assert(LINEAR[122] == 194617830);
    assert(LINEAR[123] == 198069320);
    assert(LINEAR[124] == 201556254);
    assert(LINEAR[125] == 205078736);
    assert(LINEAR[126] == 208636870);
    assert(LINEAR[127] == 212230757);
}

proof fn lemma_curve_from_128(c: int)
    requires
        128 <= c < 160,
    ensures
        on_curve(c, LINEAR[c] as int),
{
    assert(on_curve(128, 215860500)
        && on_curve(129, 219526200)
        && on_curve(130, 223227957)
        && on_curve(131, 226965874)
        && on_curve(132, 230740049)
        && on_curve(133, 234550582)
        && on_curve(134, 238397574)
        && on_curve(135, 242281122)
        && on_curve(136, 246201327)
        && on_curve(137, 250158285)
        && on_curve(138, 254152094)
        && on_curve(139, 258182853)
        && on_curve(140, 262250658)
        && on_curve(141, 266355605)
        && on_curve(142, 270497791)
        && on_curve(143, 274677312)
        && on_curve(144, 278894263)
        && on_curve(145, 283148740)
        && on_curve(146, 287440838)
        && on_curve(147, 291770650)
        && on_curve(148, 296138271)
        && on_curve(149, 300543794)
        && on_curve(150, 304987314)
        && on_curve(151, 309468923)
        && on_curve(152, 313988713)
        && on_curve(153, 318546778)
        && on_curve(154, 323143209)
        && on_curve(155, 327778098)
        && on_curve(156, 332451536)
        && on_curve(157, 337163615)
        && on_curve(158, 341914425)
        && on_curve(159, 346704056)) by (nonlinear_arith);
    assert(LINEAR[128] == 215860500);
    assert(LINEAR[129] == 219526200);
    assert(LINEAR[130] == 223227957);
    assert(LINEAR[131] == 226965874);
    assert(LINEAR[132] == 230740049);
    assert(LINEAR[133] == 234550582);
    assert(LINEAR[134] == 238397574);
    assert(LINEAR[135] == 242281122);
    assert(LINEAR[136] == 246201327);
    assert(LINEAR[137] == 250158285);
    assert(LINEAR[138] == 254152094);
    assert(LINEAR[139] == 258182853);
    assert(LINEAR[140] == 262250658);
    assert(LINEAR[141] == 266355605);
    assert(LINEAR[142] == 270497791);
    assert(LINEAR[143] == 274677312);
    assert(LINEAR[144] == 278894263);
    assert(LINEAR[145] == 283148740);
    assert(LINEAR[146] == 287440838);
    assert(LINEAR[147] == 291770650);
    assert(LINEAR[148] == 296138271);
    assert(LINEAR[149] == 300543794);
    assert(LINEAR[150] == 304987314);
    assert(LINEAR[151] == 309468923);
    assert(LINEAR[152] == 313988713);
    assert(LINEAR[153] == 318546778);
    assert(LINEAR[154] == 323143209);
    assert(LINEAR[155] == 327778098);
    assert(LINEAR[156] == 332451536);
    assert(LINEAR[157] == 337163615);
    assert(LINEAR[158] == 341914425);
    assert(LINEAR[159] == 346704056);
}

proof fn lemma_curve_from_160(c: int)
    requires
        160 <= c < 192,
    ensures
        on_curve(c, LINEAR[c] as int),
{
    assert(on_curve(160, 351532600)
        && on_curve(161, 356400144)
        && on_curve(162, 361306780)
        && on_curve(163, 366252596)
        && on_curve(164, 371237680)
        && on_curve(165, 376262123)
        && on_curve(166, 381326011)
        && on_curve(167, 386429434)
        && on_curve(168, 391572478)
        && on_curve(169, 396755231)
        && on_curve(170, 401977780)
        && on_curve(171, 407240212)
        && on_curve(172, 412542613)
        && on_curve(173, 417885071)
        && on_curve(174, 423267670)
        && on_curve(175, 428690497)
        && on_curve(176, 434153636)
        && on_curve(177, 439657174)
        && on_curve(178, 445201195)
        && on_curve(179, 450785783)
        && on_curve(180, 456411023)
        && on_curve(181, 462077000)
        && on_curve(182, 467783796)
        && on_curve(183, 473531496)
        && on_curve(184, 479320183)
        && on_curve(185, 485149940)
        && on_curve(186, 491020850)
        && on_curve(187, 496932995)
        && on_curve(188, 502886458)
        && on_curve(189, 508881321)
        && on_curve(190, 514917665)
        && on_curve(191, 520995573)) by (nonlinear_arith);
    assert(LINEAR[160] == 351532600);
    assert(LINEAR[161] == 356400144);
    assert(LINEAR[162] == 361306780);
    assert(LINEAR[163] == 366252596);
    assert(LINEAR[164] == 371237680);
    assert(LINEAR[165] == 376262123);
    assert(LINEAR[166] == 381326011);
    assert(LINEAR[167] == 386429434);
    assert(LINEAR[168] == 391572478);
    assert(LINEAR[169] == 396755231);
    assert(LINEAR[170] == 401977780);
    assert(LINEAR[171] == 407240212);
    assert(LINEAR[172] == 412542613);
    assert(LINEAR[173] == 417885071);
    assert(LINEAR[174] == 423267670);
    assert(LINEAR[175] == 428690497);
    assert(LINEAR[176] == 434153636);
    assert(LINEAR[177] == 439657174);
    assert(LINEAR[178] == 445201195);
    assert(LINEAR[179] == 450785783);
    assert(LINEAR[180] == 456411023);
    assert(LINEAR[181] == 462077000);
    assert(LINEAR[182] == 467783796);
    assert(LINEAR[183] == 473531496);
    assert(LINEAR[184] == 479320183);
    assert(LINEAR[185] == 485149940);
    assert(LINEAR[186] == 491020850);
    assert(LINEAR[187] == 496932995);
    assert(LINEAR[188] == 502886458);
    assert(LINEAR[189] == 508881321);
    assert(LINEAR[190] == 514917665);
    assert(LINEAR[191] == 520995573);
}

proof fn lemma_curve_from_192(c: int)
    requires
        192 <= c < 224,
    ensures
        on_curve(c, LINEAR[c] as int),
{
    assert(on_curve(192, 527115126)
        && on_curve(193, 533276404)
        && on_curve(194, 539479489)
        && on_curve(195, 545724461)
        && on_curve(196, 552011402)
        && on_curve(197, 558340390)
        && on_curve(198, 564711506)
        && on_curve(199, 571124829)
        && on_curve(200, 577580440)
        && on_curve(201, 584078418)
        && on_curve(202, 590618841)
        && on_curve(203, 597201788)
        && on_curve(204, 603827339)
        && on_curve(205, 610495571)
        && on_curve(206, 617206562)
        && on_curve(207, 623960392)
        && on_curve(208, 630757136)
        && on_curve(209, 637596874)
        && on_curve(210, 644479682)
        && on_curve(211, 651405637)
        && on_curve(212, 658374817)
        && on_curve(213, 665387298)
        && on_curve(214, 672443157)
        && on_curve(215, 679542470)
        && on_curve(216, 686685312)
        && on_curve(217, 693871761)
        && on_curve(218, 701101892)
        && on_curve(219, 708375780)
        && on_curve(220, 715693501)
        && on_curve(221, 723055129)
        && on_curve(222, 730460740)
        && on_curve(223, 737910409)) by (nonlinear_arith);
    assert(LINEAR[192] == 527115126);
    assert(LINEAR[193] == 533276404);
    assert(LINEAR[194] == 539479489);
    assert(LINEAR[195] == 545724461);
    assert(LINEAR[196] == 552011402);
    assert(LINEAR[197] == 558340390);
    assert(LINEAR[198] == 564711506);
    assert(LINEAR[199] == 571124829);
    assert(LINEAR[200] == 577580440);
    assert(LINEAR[201] == 584078418);
    assert(LINEAR[202] == 590618841);
    assert(LINEAR[203] == 597201788);
    assert(LINEAR[204] == 603827339);
    assert(LINEAR[205] == 610495571);
    assert(LINEAR[206] == 617206562);
    assert(LINEAR[207] == 623960392);
    assert(LINEAR[208] == 630757136);
    assert(LINEAR[209] == 637596874);
    assert(LINEAR[210] == 644479682);
    assert(LINEAR[211] == 651405637);
    assert(LINEAR[212] == 658374817);
    assert(LINEAR[213] == 665387298);
    assert(LINEAR[214] == 672443157);
    assert(LINEAR[215] == 679542470);
    assert(LINEAR[216] == 686685312);
    assert(LINEAR[217] == 693871761);
    assert(LINEAR[218] == 701101892);
    assert(LINEAR[219] == 708375780);
    assert(LINEAR[220] == 715693501);
    assert(LINEAR[221] == 723055129);
    assert(LINEAR[222] == 730460740);
    assert(LINEAR[223] == 737910409);
}

proof fn lemma_curve_from_224(c: int)
    requires
        224 <= c < 256,
    ensures
        on_curve(c, LINEAR[c] as int),
{
    assert(on_curve(224, 745404210)
        && on_curve(225, 752942217)
        && on_curve(226, 760524505)
        && on_curve(227, 768151147)
        && on_curve(228, 775822218)
        && on_curve(229, 783537792)
        && on_curve(230, 791297940)
        && on_curve(231, 799102738)
        && on_curve(232, 806952258)
        && on_curve(233, 814846572)
        && on_curve(234, 822785754)
        && on_curve(235, 830769877)
        && on_curve(236, 838799012)
        && on_curve(237, 846873232)
        && on_curve(238, 854992608)
        && on_curve(239, 863157213)
        && on_curve(240, 871367119)
        && on_curve(241, 879622397)
        && on_curve(242, 887923118)
        && on_curve(243, 896269353)
        && on_curve(244, 904661174)
        && on_curve(245, 913098652)
        && on_curve(246, 921581856)
        && on_curve(247, 930110858)
        && on_curve(248, 938685728)
        && on_curve(249, 947306537)
        && on_curve(250, 955973353)
        && on_curve(251, 964686248)
        && on_curve(252, 973445290)
        && on_curve(253, 982250550)
        && on_curve(254, 991102097)
        && on_curve(255, 1000000000)) by (nonlinear_arith);
    assert(LINEAR[224] == 745404210);
    assert(LINEAR[225] == 752942217);
    assert(LINEAR[226] == 760524505);
    assert(LINEAR[227] == 768151147);
    assert(LINEAR[228] == 775822218);
    assert(LINEAR[229] == 783537792);
    assert(LINEAR[230] == 791297940);
    assert(LINEAR[231] == 799102738);
    assert(LINEAR[232] == 806952258);
    assert(LINEAR[233] == 814846572);
    assert(LINEAR[234] == 822785754);
    assert(LINEAR[235] == 830769877);
    assert(LINEAR[236] == 838799012);
    assert(LINEAR[237] == 846873232);
    assert(LINEAR[238] == 854992608);
    assert(LINEAR[239] == 863157213);
    assert(LINEAR[240] == 871367119);
    assert(LINEAR[241] == 879622397);
    assert(LINEAR[242] == 887923118);
    assert(LINEAR[243] == 896269353);
    assert(LINEAR[244] == 904661174);
    assert(LINEAR[245] == 913098652);
    assert(LINEAR[246] == 921581856);
    assert(LINEAR[247] == 930110858);
    assert(LINEAR[248] == 938685728);
    assert(LINEAR[249] == 947306537);
    assert(LINEAR[250] == 955973353);
    assert(LINEAR[251] == 964686248);
    assert(LINEAR[252] == 973445290);
    assert(LINEAR[253] == 982250550);
    assert(LINEAR[254] == 991102097);
    assert(LINEAR[255] == 1000000000);
}

/// Every entry of the table is on the curve.
pub proof fn law_the_table_is_on_the_curve(c: int)
    requires
        0 <= c < 256,
    ensures
        on_curve(c, LINEAR[c] as int),
{
    if c < 32 {
        lemma_curve_from_0(c);
    } else if c < 64 {
        lemma_curve_from_32(c);
    } else if c < 96 {
        lemma_curve_from_64(c);
    } else if c < 128 {
        lemma_curve_from_96(c);
    } else if c < 160 {
        lemma_curve_from_128(c);
    } else if c < 192 {
        lemma_curve_from_160(c);
    } else if c < 224 {
        lemma_curve_from_192(c);
    } else {
        lemma_curve_from_224(c);
    }
}

} // verus!
