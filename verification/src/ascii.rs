//! Code page 437, the character set of the built-in fonts: each of its 256
//! indices stands for one character.
use vstd::prelude::*;

verus! {

/// The glyphs of code page 437 at indices 0 to 31.
pub open spec fn control_glyphs() -> Seq<char> {
    "\u{0}☺☻♥♦♣♠•◘○◙♂♀♪♫☼►◄↕‼¶§▬↨↑↓→←∟↔▲▼"@
}

/// The glyphs of code page 437 at indices 127 to 255.
pub open spec fn upper_glyphs() -> Seq<char> {
    "⌂ÇüéâäàåçêëèïîìÄÅÉæÆôöòûùÿÖÜ¢£¥₧ƒáíóúñÑªº¿⌐¬½¼¡«»░▒▓│┤╡╢╖╕╣║╗╝╜╛┐└┴┬├─┼╞╟╚╔╩╦╠═╬╧╨╤╥╙╘╒╓╫╪┘┌█▄▌▐▀αßΓπΣσµτΦΘΩδ∞φε∩≡±≥≤⌠⌡÷≈°∙·√ⁿ²■\u{a0}"@
}

/// The character of code page 437 at an index: below 32 and from 127 on, a
/// glyph of the tables above; in between, the ASCII character of that code.
pub open spec fn cp437_char(index: u8) -> char {
    if index < 32 {
        control_glyphs()[index as int]
    } else if index < 127 {
        index as char
    } else {
        upper_glyphs()[index - 127]
    }
}

/// The code page 437 character at an index; every index has one.
pub fn try_index_to_char(index: u8) -> (r: Option<char>)
    ensures
        r == Some(cp437_char(index)),
{
    if index < 32 {
        let glyphs: &str = "\u{0}☺☻♥♦♣♠•◘○◙♂♀♪♫☼►◄↕‼¶§▬↨↑↓→←∟↔▲▼";
        proof {
            reveal_strlit("\u{0}☺☻♥♦♣♠•◘○◙♂♀♪♫☼►◄↕‼¶§▬↨↑↓→←∟↔▲▼");
        }
        Some(glyphs.get_char(index as usize))
    } else if index < 127 {
        Some(index as char)
    } else {
        let glyphs: &str = "⌂ÇüéâäàåçêëèïîìÄÅÉæÆôöòûùÿÖÜ¢£¥₧ƒáíóúñÑªº¿⌐¬½¼¡«»░▒▓│┤╡╢╖╕╣║╗╝╜╛┐└┴┬├─┼╞╟╚╔╩╦╠═╬╧╨╤╥╙╘╒╓╫╪┘┌█▄▌▐▀αßΓπΣσµτΦΘΩδ∞φε∩≡±≥≤⌠⌡÷≈°∙·√ⁿ²■\u{a0}";
        proof {
            reveal_strlit("⌂ÇüéâäàåçêëèïîìÄÅÉæÆôöòûùÿÖÜ¢£¥₧ƒáíóúñÑªº¿⌐¬½¼¡«»░▒▓│┤╡╢╖╕╣║╗╝╜╛┐└┴┬├─┼╞╟╚╔╩╦╠═╬╧╨╤╥╙╘╒╓╫╪┘┌█▄▌▐▀αßΓπΣσµτΦΘΩδ∞φε∩≡±≥≤⌠⌡÷≈°∙·√ⁿ²■\u{a0}");
        }
        Some(glyphs.get_char((index - 127) as usize))
    }
}

/// The standard code page 437 table, index by index: the control range shows
/// the classic glyphs (smileys, card suits, arrows), 32 to 126 are ASCII, 127
/// is the house, and the upper half holds the accented letters, the box
/// drawing set (single lines such as 196 `─` and 179 `│`, double lines such as
/// 205 `═` and 186 `║`), block shades, Greek letters and math signs.
pub proof fn law_cp437_table()
    ensures
        cp437_char(0) == '\u{0}',
        cp437_char(1) == '☺',
        cp437_char(2) == '☻',
        cp437_char(3) == '♥',
        cp437_char(4) == '♦',
        cp437_char(5) == '♣',
        cp437_char(6) == '♠',
        cp437_char(7) == '•',
        cp437_char(8) == '◘',
        cp437_char(9) == '○',
        cp437_char(10) == '◙',
        cp437_char(11) == '♂',
        cp437_char(12) == '♀',
        cp437_char(13) == '♪',
        cp437_char(14) == '♫',
        cp437_char(15) == '☼',
        cp437_char(16) == '►',
        cp437_char(17) == '◄',
        cp437_char(18) == '↕',
        cp437_char(19) == '‼',
        cp437_char(20) == '¶',
        cp437_char(21) == '§',
        cp437_char(22) == '▬',
        cp437_char(23) == '↨',
        cp437_char(24) == '↑',
        cp437_char(25) == '↓',
        cp437_char(26) == '→',
        cp437_char(27) == '←',
        cp437_char(28) == '∟',
        cp437_char(29) == '↔',
        cp437_char(30) == '▲',
        cp437_char(31) == '▼',
        cp437_char(32) == ' ',
        cp437_char(33) == '!',
        cp437_char(34) == '"',
        cp437_char(35) == '#',
        cp437_char(36) == '$',
        cp437_char(37) == '%',
        cp437_char(38) == '&',
        cp437_char(39) == '\'',
        cp437_char(40) == '(',
        cp437_char(41) == ')',
        cp437_char(42) == '*',
        cp437_char(43) == '+',
        cp437_char(44) == ',',
        cp437_char(45) == '-',
        cp437_char(46) == '.',
        cp437_char(47) == '/',
        cp437_char(48) == '0',
        cp437_char(49) == '1',
        cp437_char(50) == '2',
        cp437_char(51) == '3',
        cp437_char(52) == '4',
        cp437_char(53) == '5',
        cp437_char(54) == '6',
        cp437_char(55) == '7',
        cp437_char(56) == '8',
        cp437_char(57) == '9',
        cp437_char(58) == ':',
        cp437_char(59) == ';',
        cp437_char(60) == '<',
        cp437_char(61) == '=',
        cp437_char(62) == '>',
        cp437_char(63) == '?',
        cp437_char(64) == '@',
        cp437_char(65) == 'A',
        cp437_char(66) == 'B',
        cp437_char(67) == 'C',
        cp437_char(68) == 'D',
        cp437_char(69) == 'E',
        cp437_char(70) == 'F',
        cp437_char(71) == 'G',
        cp437_char(72) == 'H',
        cp437_char(73) == 'I',
        cp437_char(74) == 'J',
        cp437_char(75) == 'K',
        cp437_char(76) == 'L',
        cp437_char(77) == 'M',
        cp437_char(78) == 'N',
        cp437_char(79) == 'O',
        cp437_char(80) == 'P',
        cp437_char(81) == 'Q',
        cp437_char(82) == 'R',
        cp437_char(83) == 'S',
        cp437_char(84) == 'T',
        cp437_char(85) == 'U',
        cp437_char(86) == 'V',
        cp437_char(87) == 'W',
        cp437_char(88) == 'X',
        cp437_char(89) == 'Y',
        cp437_char(90) == 'Z',
        cp437_char(91) == '[',
        cp437_char(92) == '\\',
        cp437_char(93) == ']',
        cp437_char(94) == '^',
        cp437_char(95) == '_',
        cp437_char(96) == '`',
        cp437_char(97) == 'a',
        cp437_char(98) == 'b',
        cp437_char(99) == 'c',
        cp437_char(100) == 'd',
        cp437_char(101) == 'e',
        cp437_char(102) == 'f',
        cp437_char(103) == 'g',
        cp437_char(104) == 'h',
        cp437_char(105) == 'i',
        cp437_char(106) == 'j',
        cp437_char(107) == 'k',
        cp437_char(108) == 'l',
        cp437_char(109) == 'm',
        cp437_char(110) == 'n',
        cp437_char(111) == 'o',
        cp437_char(112) == 'p',
        cp437_char(113) == 'q',
        cp437_char(114) == 'r',
        cp437_char(115) == 's',
        cp437_char(116) == 't',
        cp437_char(117) == 'u',
        cp437_char(118) == 'v',
        cp437_char(119) == 'w',
        cp437_char(120) == 'x',
        cp437_char(121) == 'y',
        cp437_char(122) == 'z',
        cp437_char(123) == '{',
        cp437_char(124) == '|',
        cp437_char(125) == '}',
        cp437_char(126) == '~',
        cp437_char(127) == '⌂',
        cp437_char(128) == 'Ç',
        cp437_char(129) == 'ü',
        cp437_char(130) == 'é',
        cp437_char(131) == 'â',
        cp437_char(132) == 'ä',
        cp437_char(133) == 'à',
        cp437_char(134) == 'å',
        cp437_char(135) == 'ç',
        cp437_char(136) == 'ê',
        cp437_char(137) == 'ë',
        cp437_char(138) == 'è',
        cp437_char(139) == 'ï',
        cp437_char(140) == 'î',
        cp437_char(141) == 'ì',
        cp437_char(142) == 'Ä',
        cp437_char(143) == 'Å',
        cp437_char(144) == 'É',
        cp437_char(145) == 'æ',
        cp437_char(146) == 'Æ',
        cp437_char(147) == 'ô',
        cp437_char(148) == 'ö',
        cp437_char(149) == 'ò',
        cp437_char(150) == 'û',
        cp437_char(151) == 'ù',
        cp437_char(152) == 'ÿ',
        cp437_char(153) == 'Ö',
        cp437_char(154) == 'Ü',
        cp437_char(155) == '¢',
        cp437_char(156) == '£',
        cp437_char(157) == '¥',
        cp437_char(158) == '₧',
        cp437_char(159) == 'ƒ',
        cp437_char(160) == 'á',
        cp437_char(161) == 'í',
        cp437_char(162) == 'ó',
        cp437_char(163) == 'ú',
        cp437_char(164) == 'ñ',
        cp437_char(165) == 'Ñ',
        cp437_char(166) == 'ª',
        cp437_char(167) == 'º',
        cp437_char(168) == '¿',
        cp437_char(169) == '⌐',
        cp437_char(170) == '¬',
        cp437_char(171) == '½',
        cp437_char(172) == '¼',
        cp437_char(173) == '¡',
        cp437_char(174) == '«',
        cp437_char(175) == '»',
        cp437_char(176) == '░',
        cp437_char(177) == '▒',
        cp437_char(178) == '▓',
        cp437_char(179) == '│',
        cp437_char(180) == '┤',
        cp437_char(181) == '╡',
        cp437_char(182) == '╢',
        cp437_char(183) == '╖',
        cp437_char(184) == '╕',
        cp437_char(185) == '╣',
        cp437_char(186) == '║',
        cp437_char(187) == '╗',
        cp437_char(188) == '╝',
        cp437_char(189) == '╜',
        cp437_char(190) == '╛',
        cp437_char(191) == '┐',
        cp437_char(192) == '└',
        cp437_char(193) == '┴',
        cp437_char(194) == '┬',
        cp437_char(195) == '├',
        cp437_char(196) == '─',
        cp437_char(197) == '┼',
        cp437_char(198) == '╞',
        cp437_char(199) == '╟',
        cp437_char(200) == '╚',
        cp437_char(201) == '╔',
        cp437_char(202) == '╩',
        cp437_char(203) == '╦',
        cp437_char(204) == '╠',
        cp437_char(205) == '═',
        cp437_char(206) == '╬',
        cp437_char(207) == '╧',
        cp437_char(208) == '╨',
        cp437_char(209) == '╤',
        cp437_char(210) == '╥',
        cp437_char(211) == '╙',
        cp437_char(212) == '╘',
        cp437_char(213) == '╒',
        cp437_char(214) == '╓',
        cp437_char(215) == '╫',
        cp437_char(216) == '╪',
        cp437_char(217) == '┘',
        cp437_char(218) == '┌',
        cp437_char(219) == '█',
        cp437_char(220) == '▄',
        cp437_char(221) == '▌',
        cp437_char(222) == '▐',
        cp437_char(223) == '▀',
        cp437_char(224) == 'α',
        cp437_char(225) == 'ß',
        cp437_char(226) == 'Γ',
        cp437_char(227) == 'π',
        cp437_char(228) == 'Σ',
        cp437_char(229) == 'σ',
        cp437_char(230) == 'µ',
        cp437_char(231) == 'τ',
        cp437_char(232) == 'Φ',
        cp437_char(233) == 'Θ',
        cp437_char(234) == 'Ω',
        cp437_char(235) == 'δ',
        cp437_char(236) == '∞',
        cp437_char(237) == 'φ',
        cp437_char(238) == 'ε',
        cp437_char(239) == '∩',
        cp437_char(240) == '≡',
        cp437_char(241) == '±',
        cp437_char(242) == '≥',
        cp437_char(243) == '≤',
        cp437_char(244) == '⌠',
        cp437_char(245) == '⌡',
        cp437_char(246) == '÷',
        cp437_char(247) == '≈',
        cp437_char(248) == '°',
        cp437_char(249) == '∙',
        cp437_char(250) == '·',
        cp437_char(251) == '√',
        cp437_char(252) == 'ⁿ',
        cp437_char(253) == '²',
        cp437_char(254) == '■',
        cp437_char(255) == '\u{a0}',
{
    reveal_strlit("\u{0}☺☻♥♦♣♠•◘○◙♂♀♪♫☼►◄↕‼¶§▬↨↑↓→←∟↔▲▼");
    reveal_strlit("⌂ÇüéâäàåçêëèïîìÄÅÉæÆôöòûùÿÖÜ¢£¥₧ƒáíóúñÑªº¿⌐¬½¼¡«»░▒▓│┤╡╢╖╕╣║╗╝╜╛┐└┴┬├─┼╞╟╚╔╩╦╠═╬╧╨╤╥╙╘╒╓╫╪┘┌█▄▌▐▀αßΓπΣσµτΦΘΩδ∞φε∩≡±≥≤⌠⌡÷≈°∙·√ⁿ²■\u{a0}");
}

/// The code page 437 index of a character, where it has one: the inverse of
/// the table, written out character by character.
pub open spec fn cp437_index(ch: char) -> Option<u8> {
    if 32 <= (ch as u32) < 127 {
        Some((ch as u32) as u8)
    } else {
        match ch {
            '\u{0}' => Some(0u8),
            '☺' => Some(1u8),
            '☻' => Some(2u8),
            '♥' => Some(3u8),
            '♦' => Some(4u8),
            '♣' => Some(5u8),
            '♠' => Some(6u8),
            '•' => Some(7u8),
            '◘' => Some(8u8),
            '○' => Some(9u8),
            '◙' => Some(10u8),
            '♂' => Some(11u8),
            '♀' => Some(12u8),
            '♪' => Some(13u8),
            '♫' => Some(14u8),
            '☼' => Some(15u8),
            '►' => Some(16u8),
            '◄' => Some(17u8),
            '↕' => Some(18u8),
            '‼' => Some(19u8),
            '¶' => Some(20u8),
            '§' => Some(21u8),
            '▬' => Some(22u8),
            '↨' => Some(23u8),
            '↑' => Some(24u8),
            '↓' => Some(25u8),
            '→' => Some(26u8),
            '←' => Some(27u8),
            '∟' => Some(28u8),
            '↔' => Some(29u8),
            '▲' => Some(30u8),
            '▼' => Some(31u8),
            '⌂' => Some(127u8),
            'Ç' => Some(128u8),
            'ü' => Some(129u8),
            'é' => Some(130u8),
            'â' => Some(131u8),
            'ä' => Some(132u8),
            'à' => Some(133u8),
            'å' => Some(134u8),
            'ç' => Some(135u8),
            'ê' => Some(136u8),
            'ë' => Some(137u8),
            'è' => Some(138u8),
            'ï' => Some(139u8),
            'î' => Some(140u8),
            'ì' => Some(141u8),
            'Ä' => Some(142u8),
            'Å' => Some(143u8),
            'É' => Some(144u8),
            'æ' => Some(145u8),
            'Æ' => Some(146u8),
            'ô' => Some(147u8),
            'ö' => Some(148u8),
            'ò' => Some(149u8),
            'û' => Some(150u8),
            'ù' => Some(151u8),
            'ÿ' => Some(152u8),
            'Ö' => Some(153u8),
            'Ü' => Some(154u8),
            '¢' => Some(155u8),
            '£' => Some(156u8),
            '¥' => Some(157u8),
            '₧' => Some(158u8),
            'ƒ' => Some(159u8),
            'á' => Some(160u8),
            'í' => Some(161u8),
            'ó' => Some(162u8),
            'ú' => Some(163u8),
            'ñ' => Some(164u8),
            'Ñ' => Some(165u8),
            'ª' => Some(166u8),
            'º' => Some(167u8),
            '¿' => Some(168u8),
            '⌐' => Some(169u8),
            '¬' => Some(170u8),
            '½' => Some(171u8),
            '¼' => Some(172u8),
            '¡' => Some(173u8),
            '«' => Some(174u8),
            '»' => Some(175u8),
            '░' => Some(176u8),
            '▒' => Some(177u8),
            '▓' => Some(178u8),
            '│' => Some(179u8),
            '┤' => Some(180u8),
            '╡' => Some(181u8),
            '╢' => Some(182u8),
            '╖' => Some(183u8),
            '╕' => Some(184u8),
            '╣' => Some(185u8),
            '║' => Some(186u8),
            '╗' => Some(187u8),
            '╝' => Some(188u8),
            '╜' => Some(189u8),
            '╛' => Some(190u8),
            '┐' => Some(191u8),
            '└' => Some(192u8),
            '┴' => Some(193u8),
            '┬' => Some(194u8),
            '├' => Some(195u8),
            '─' => Some(196u8),
            '┼' => Some(197u8),
            '╞' => Some(198u8),
            '╟' => Some(199u8),
            '╚' => Some(200u8),
            '╔' => Some(201u8),
            '╩' => Some(202u8),
            '╦' => Some(203u8),
            '╠' => Some(204u8),
            '═' => Some(205u8),
            '╬' => Some(206u8),
            '╧' => Some(207u8),
            '╨' => Some(208u8),
            '╤' => Some(209u8),
            '╥' => Some(210u8),
            '╙' => Some(211u8),
            '╘' => Some(212u8),
            '╒' => Some(213u8),
            '╓' => Some(214u8),
            '╫' => Some(215u8),
            '╪' => Some(216u8),
            '┘' => Some(217u8),
            '┌' => Some(218u8),
            '█' => Some(219u8),
            '▄' => Some(220u8),
            '▌' => Some(221u8),
            '▐' => Some(222u8),
            '▀' => Some(223u8),
            'α' => Some(224u8),
            'ß' => Some(225u8),
            'Γ' => Some(226u8),
            'π' => Some(227u8),
            'Σ' => Some(228u8),
            'σ' => Some(229u8),
            'µ' => Some(230u8),
            'τ' => Some(231u8),
            'Φ' => Some(232u8),
            'Θ' => Some(233u8),
            'Ω' => Some(234u8),
            'δ' => Some(235u8),
            '∞' => Some(236u8),
            'φ' => Some(237u8),
            'ε' => Some(238u8),
            '∩' => Some(239u8),
            '≡' => Some(240u8),
            '±' => Some(241u8),
            '≥' => Some(242u8),
            '≤' => Some(243u8),
            '⌠' => Some(244u8),
            '⌡' => Some(245u8),
            '÷' => Some(246u8),
            '≈' => Some(247u8),
            '°' => Some(248u8),
            '∙' => Some(249u8),
            '·' => Some(250u8),
            '√' => Some(251u8),
            'ⁿ' => Some(252u8),
            '²' => Some(253u8),
            '■' => Some(254u8),
            '\u{a0}' => Some(255u8),
            _ => None,
        }
    }
}

/// No two indices of code page 437 share a character: looking a character up
/// in the table gives back its index, so the 256 characters are distinct.
pub proof fn law_cp437_injective()
    ensures
        forall|i: u8| #[trigger] cp437_index(cp437_char(i)) == Some(i),
        forall|i: u8, j: u8| cp437_char(i) == cp437_char(j) ==> i == j,
{
    law_cp437_table();
    assert forall|i: u8| #[trigger] cp437_index(cp437_char(i)) == Some(i) by {
        if 32 <= i < 127 {
        } else {
            assert(i == 0 || i == 1 || i == 2 || i == 3 || i == 4 || i == 5 || i == 6 || i == 7 || i == 8 || i == 9 || i == 10 || i == 11 || i == 12 || i == 13 || i == 14 || i == 15 || i == 16 || i == 17 || i == 18 || i == 19 || i == 20 || i == 21 || i == 22 || i == 23 || i == 24 || i == 25 || i == 26 || i == 27 || i == 28 || i == 29 || i == 30 || i == 31 || i == 127 || i == 128 || i == 129 || i == 130 || i == 131 || i == 132 || i == 133 || i == 134 || i == 135 || i == 136 || i == 137 || i == 138 || i == 139 || i == 140 || i == 141 || i == 142 || i == 143 || i == 144 || i == 145 || i == 146 || i == 147 || i == 148 || i == 149 || i == 150 || i == 151 || i == 152 || i == 153 || i == 154 || i == 155 || i == 156 || i == 157 || i == 158 || i == 159 || i == 160 || i == 161 || i == 162 || i == 163 || i == 164 || i == 165 || i == 166 || i == 167 || i == 168 || i == 169 || i == 170 || i == 171 || i == 172 || i == 173 || i == 174 || i == 175 || i == 176 || i == 177 || i == 178 || i == 179 || i == 180 || i == 181 || i == 182 || i == 183 || i == 184 || i == 185 || i == 186 || i == 187 || i == 188 || i == 189 || i == 190 || i == 191 || i == 192 || i == 193 || i == 194 || i == 195 || i == 196 || i == 197 || i == 198 || i == 199 || i == 200 || i == 201 || i == 202 || i == 203 || i == 204 || i == 205 || i == 206 || i == 207 || i == 208 || i == 209 || i == 210 || i == 211 || i == 212 || i == 213 || i == 214 || i == 215 || i == 216 || i == 217 || i == 218 || i == 219 || i == 220 || i == 221 || i == 222 || i == 223 || i == 224 || i == 225 || i == 226 || i == 227 || i == 228 || i == 229 || i == 230 || i == 231 || i == 232 || i == 233 || i == 234 || i == 235 || i == 236 || i == 237 || i == 238 || i == 239 || i == 240 || i == 241 || i == 242 || i == 243 || i == 244 || i == 245 || i == 246 || i == 247 || i == 248 || i == 249 || i == 250 || i == 251 || i == 252 || i == 253 || i == 254 || i == 255);
        }
    }
    assert forall|i: u8, j: u8| cp437_char(i) == cp437_char(j) implies i == j by {
        assert(cp437_index(cp437_char(i)) == Some(i));
        assert(cp437_index(cp437_char(j)) == Some(j));
    }
}

} // verus!
