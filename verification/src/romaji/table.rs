//! The table of syllables: each as it is spelled in Latin letters and as
//! it is written in the two kana.
use vstd::prelude::*;

use crate::text::same;

verus! {

/// A syllable in both kana.
#[derive(Clone, Copy, Debug)]
pub struct Kana {
    pub hiragana: &'static str,
    pub katakana: &'static str,
}

/// The syllable that Latin letters spell, if they spell one. The table
/// holds the five vowels, the rows of the consonants with their voiced
/// forms, the palatalized syllables, the syllabic n, alone or marked off
/// by an apostrophe, and the long-vowel mark.
pub open spec fn syllable_of(romaji: Seq<char>) -> Option<Kana> {
    if romaji == "a"@ {
        Some(Kana { hiragana: "あ", katakana: "ア" })
    } else if romaji == "i"@ {
        Some(Kana { hiragana: "い", katakana: "イ" })
    } else if romaji == "u"@ {
        Some(Kana { hiragana: "う", katakana: "ウ" })
    } else if romaji == "e"@ {
        Some(Kana { hiragana: "え", katakana: "エ" })
    } else if romaji == "o"@ {
        Some(Kana { hiragana: "お", katakana: "オ" })
    } else if romaji == "ka"@ {
        Some(Kana { hiragana: "か", katakana: "カ" })
    } else if romaji == "ki"@ {
        Some(Kana { hiragana: "き", katakana: "キ" })
    } else if romaji == "ku"@ {
        Some(Kana { hiragana: "く", katakana: "ク" })
    } else if romaji == "ke"@ {
        Some(Kana { hiragana: "け", katakana: "ケ" })
    } else if romaji == "ko"@ {
        Some(Kana { hiragana: "こ", katakana: "コ" })
    } else if romaji == "sa"@ {
        Some(Kana { hiragana: "さ", katakana: "サ" })
    } else if romaji == "si"@ {
        Some(Kana { hiragana: "し", katakana: "シ" })
    } else if romaji == "su"@ {
        Some(Kana { hiragana: "す", katakana: "ス" })
    } else if romaji == "se"@ {
        Some(Kana { hiragana: "せ", katakana: "セ" })
    } else if romaji == "so"@ {
        Some(Kana { hiragana: "そ", katakana: "ソ" })
    } else if romaji == "ta"@ {
        Some(Kana { hiragana: "た", katakana: "タ" })
    } else if romaji == "ti"@ {
        Some(Kana { hiragana: "ち", katakana: "チ" })
    } else if romaji == "tu"@ {
        Some(Kana { hiragana: "つ", katakana: "ツ" })
    } else if romaji == "te"@ {
        Some(Kana { hiragana: "て", katakana: "テ" })
    } else if romaji == "to"@ {
        Some(Kana { hiragana: "と", katakana: "ト" })
    } else if romaji == "na"@ {
        Some(Kana { hiragana: "な", katakana: "ナ" })
    } else if romaji == "ni"@ {
        Some(Kana { hiragana: "に", katakana: "ニ" })
    } else if romaji == "nu"@ {
        Some(Kana { hiragana: "ぬ", katakana: "ヌ" })
    } else if romaji == "ne"@ {
        Some(Kana { hiragana: "ね", katakana: "ネ" })
    } else if romaji == "no"@ {
        Some(Kana { hiragana: "の", katakana: "ノ" })
    } else if romaji == "ha"@ {
        Some(Kana { hiragana: "は", katakana: "ハ" })
    } else if romaji == "hi"@ {
        Some(Kana { hiragana: "ひ", katakana: "ヒ" })
    } else if romaji == "hu"@ {
        Some(Kana { hiragana: "ふ", katakana: "フ" })
    } else if romaji == "he"@ {
        Some(Kana { hiragana: "へ", katakana: "ヘ" })
    } else if romaji == "ho"@ {
        Some(Kana { hiragana: "ほ", katakana: "ホ" })
    } else if romaji == "ma"@ {
        Some(Kana { hiragana: "ま", katakana: "マ" })
    } else if romaji == "mi"@ {
        Some(Kana { hiragana: "み", katakana: "ミ" })
    } else if romaji == "mu"@ {
        Some(Kana { hiragana: "む", katakana: "ム" })
    } else if romaji == "me"@ {
        Some(Kana { hiragana: "め", katakana: "メ" })
    } else if romaji == "mo"@ {
        Some(Kana { hiragana: "も", katakana: "モ" })
    } else if romaji == "ra"@ {
        Some(Kana { hiragana: "ら", katakana: "ラ" })
    } else if romaji == "ri"@ {
        Some(Kana { hiragana: "り", katakana: "リ" })
    } else if romaji == "ru"@ {
        Some(Kana { hiragana: "る", katakana: "ル" })
    } else if romaji == "re"@ {
        Some(Kana { hiragana: "れ", katakana: "レ" })
    } else if romaji == "ro"@ {
        Some(Kana { hiragana: "ろ", katakana: "ロ" })
    } else if romaji == "ga"@ {
        Some(Kana { hiragana: "が", katakana: "ガ" })
    } else if romaji == "gi"@ {
        Some(Kana { hiragana: "ぎ", katakana: "ギ" })
    } else if romaji == "gu"@ {
        Some(Kana { hiragana: "ぐ", katakana: "グ" })
    } else if romaji == "ge"@ {
        Some(Kana { hiragana: "げ", katakana: "ゲ" })
    } else if romaji == "go"@ {
        Some(Kana { hiragana: "ご", katakana: "ゴ" })
    } else if romaji == "za"@ {
        Some(Kana { hiragana: "ざ", katakana: "ザ" })
    } else if romaji == "zi"@ {
        Some(Kana { hiragana: "じ", katakana: "ジ" })
    } else if romaji == "zu"@ {
        Some(Kana { hiragana: "ず", katakana: "ズ" })
    } else if romaji == "ze"@ {
        Some(Kana { hiragana: "ぜ", katakana: "ゼ" })
    } else if romaji == "zo"@ {
        Some(Kana { hiragana: "ぞ", katakana: "ゾ" })
    } else if romaji == "da"@ {
        Some(Kana { hiragana: "だ", katakana: "ダ" })
    } else if romaji == "di"@ {
        Some(Kana { hiragana: "ぢ", katakana: "ヂ" })
    } else if romaji == "du"@ {
        Some(Kana { hiragana: "づ", katakana: "ヅ" })
    } else if romaji == "de"@ {
        Some(Kana { hiragana: "で", katakana: "デ" })
    } else if romaji == "do"@ {
        Some(Kana { hiragana: "ど", katakana: "ド" })
    } else if romaji == "ba"@ {
        Some(Kana { hiragana: "ば", katakana: "バ" })
    } else if romaji == "bi"@ {
        Some(Kana { hiragana: "び", katakana: "ビ" })
    } else if romaji == "bu"@ {
        Some(Kana { hiragana: "ぶ", katakana: "ブ" })
    } else if romaji == "be"@ {
        Some(Kana { hiragana: "べ", katakana: "ベ" })
    } else if romaji == "bo"@ {
        Some(Kana { hiragana: "ぼ", katakana: "ボ" })
    } else if romaji == "pa"@ {
        Some(Kana { hiragana: "ぱ", katakana: "パ" })
    } else if romaji == "pi"@ {
        Some(Kana { hiragana: "ぴ", katakana: "ピ" })
    } else if romaji == "pu"@ {
        Some(Kana { hiragana: "ぷ", katakana: "プ" })
    } else if romaji == "pe"@ {
        Some(Kana { hiragana: "ぺ", katakana: "ペ" })
    } else if romaji == "po"@ {
        Some(Kana { hiragana: "ぽ", katakana: "ポ" })
    } else if romaji == "ya"@ {
        Some(Kana { hiragana: "や", katakana: "ヤ" })
    } else if romaji == "yu"@ {
        Some(Kana { hiragana: "ゆ", katakana: "ユ" })
    } else if romaji == "yo"@ {
        Some(Kana { hiragana: "よ", katakana: "ヨ" })
    } else if romaji == "wa"@ {
        Some(Kana { hiragana: "わ", katakana: "ワ" })
    } else if romaji == "wo"@ {
        Some(Kana { hiragana: "を", katakana: "ヲ" })
    } else if romaji == "shi"@ {
        Some(Kana { hiragana: "し", katakana: "シ" })
    } else if romaji == "chi"@ {
        Some(Kana { hiragana: "ち", katakana: "チ" })
    } else if romaji == "tsu"@ {
        Some(Kana { hiragana: "つ", katakana: "ツ" })
    } else if romaji == "fu"@ {
        Some(Kana { hiragana: "ふ", katakana: "フ" })
    } else if romaji == "ji"@ {
        Some(Kana { hiragana: "じ", katakana: "ジ" })
    } else if romaji == "n'"@ {
        Some(Kana { hiragana: "ん", katakana: "ン" })
    } else if romaji == "n"@ {
        Some(Kana { hiragana: "ん", katakana: "ン" })
    } else if romaji == "-"@ {
        Some(Kana { hiragana: "ー", katakana: "ー" })
    } else if romaji == "kya"@ {
        Some(Kana { hiragana: "きゃ", katakana: "キャ" })
    } else if romaji == "kyu"@ {
        Some(Kana { hiragana: "きゅ", katakana: "キュ" })
    } else if romaji == "kyo"@ {
        Some(Kana { hiragana: "きょ", katakana: "キョ" })
    } else if romaji == "sha"@ {
        Some(Kana { hiragana: "しゃ", katakana: "シャ" })
    } else if romaji == "shu"@ {
        Some(Kana { hiragana: "しゅ", katakana: "シュ" })
    } else if romaji == "sho"@ {
        Some(Kana { hiragana: "しょ", katakana: "ショ" })
    } else if romaji == "sya"@ {
        Some(Kana { hiragana: "しゃ", katakana: "シャ" })
    } else if romaji == "syu"@ {
        Some(Kana { hiragana: "しゅ", katakana: "シュ" })
    } else if romaji == "syo"@ {
        Some(Kana { hiragana: "しょ", katakana: "ショ" })
    } else if romaji == "cha"@ {
        Some(Kana { hiragana: "ちゃ", katakana: "チャ" })
    } else if romaji == "chu"@ {
        Some(Kana { hiragana: "ちゅ", katakana: "チュ" })
    } else if romaji == "cho"@ {
        Some(Kana { hiragana: "ちょ", katakana: "チョ" })
    } else if romaji == "tya"@ {
        Some(Kana { hiragana: "ちゃ", katakana: "チャ" })
    } else if romaji == "tyu"@ {
        Some(Kana { hiragana: "ちゅ", katakana: "チュ" })
    } else if romaji == "tyo"@ {
        Some(Kana { hiragana: "ちょ", katakana: "チョ" })
    } else if romaji == "nya"@ {
        Some(Kana { hiragana: "にゃ", katakana: "ニャ" })
    } else if romaji == "nyu"@ {
        Some(Kana { hiragana: "にゅ", katakana: "ニュ" })
    } else if romaji == "nyo"@ {
        Some(Kana { hiragana: "にょ", katakana: "ニョ" })
    } else if romaji == "hya"@ {
        Some(Kana { hiragana: "ひゃ", katakana: "ヒャ" })
    } else if romaji == "hyu"@ {
        Some(Kana { hiragana: "ひゅ", katakana: "ヒュ" })
    } else if romaji == "hyo"@ {
        Some(Kana { hiragana: "ひょ", katakana: "ヒョ" })
    } else if romaji == "mya"@ {
        Some(Kana { hiragana: "みゃ", katakana: "ミャ" })
    } else if romaji == "myu"@ {
        Some(Kana { hiragana: "みゅ", katakana: "ミュ" })
    } else if romaji == "myo"@ {
        Some(Kana { hiragana: "みょ", katakana: "ミョ" })
    } else if romaji == "rya"@ {
        Some(Kana { hiragana: "りゃ", katakana: "リャ" })
    } else if romaji == "ryu"@ {
        Some(Kana { hiragana: "りゅ", katakana: "リュ" })
    } else if romaji == "ryo"@ {
        Some(Kana { hiragana: "りょ", katakana: "リョ" })
    } else if romaji == "gya"@ {
        Some(Kana { hiragana: "ぎゃ", katakana: "ギャ" })
    } else if romaji == "gyu"@ {
        Some(Kana { hiragana: "ぎゅ", katakana: "ギュ" })
    } else if romaji == "gyo"@ {
        Some(Kana { hiragana: "ぎょ", katakana: "ギョ" })
    } else if romaji == "ja"@ {
        Some(Kana { hiragana: "じゃ", katakana: "ジャ" })
    } else if romaji == "ju"@ {
        Some(Kana { hiragana: "じゅ", katakana: "ジュ" })
    } else if romaji == "jo"@ {
        Some(Kana { hiragana: "じょ", katakana: "ジョ" })
    } else if romaji == "jya"@ {
        Some(Kana { hiragana: "じゃ", katakana: "ジャ" })
    } else if romaji == "jyu"@ {
        Some(Kana { hiragana: "じゅ", katakana: "ジュ" })
    } else if romaji == "jyo"@ {
        Some(Kana { hiragana: "じょ", katakana: "ジョ" })
    } else if romaji == "zya"@ {
        Some(Kana { hiragana: "じゃ", katakana: "ジャ" })
    } else if romaji == "zyu"@ {
        Some(Kana { hiragana: "じゅ", katakana: "ジュ" })
    } else if romaji == "zyo"@ {
        Some(Kana { hiragana: "じょ", katakana: "ジョ" })
    } else if romaji == "bya"@ {
        Some(Kana { hiragana: "びゃ", katakana: "ビャ" })
    } else if romaji == "byu"@ {
        Some(Kana { hiragana: "びゅ", katakana: "ビュ" })
    } else if romaji == "byo"@ {
        Some(Kana { hiragana: "びょ", katakana: "ビョ" })
    } else if romaji == "pya"@ {
        Some(Kana { hiragana: "ぴゃ", katakana: "ピャ" })
    } else if romaji == "pyu"@ {
        Some(Kana { hiragana: "ぴゅ", katakana: "ピュ" })
    } else if romaji == "pyo"@ {
        Some(Kana { hiragana: "ぴょ", katakana: "ピョ" })
    } else if romaji == "dya"@ {
        Some(Kana { hiragana: "ぢゃ", katakana: "ヂャ" })
    } else if romaji == "dyu"@ {
        Some(Kana { hiragana: "ぢゅ", katakana: "ヂュ" })
    } else if romaji == "dyo"@ {
        Some(Kana { hiragana: "ぢょ", katakana: "ヂョ" })
    } else {
        None
    }
}

/// The syllable that Latin letters spell, if they spell one.
pub fn syllable(romaji: &str) -> (kana: Option<Kana>)
    ensures
        kana == syllable_of(romaji@),
{
    if same(romaji, "a") {
        Some(Kana { hiragana: "あ", katakana: "ア" })
    } else if same(romaji, "i") {
        Some(Kana { hiragana: "い", katakana: "イ" })
    } else if same(romaji, "u") {
        Some(Kana { hiragana: "う", katakana: "ウ" })
    } else if same(romaji, "e") {
        Some(Kana { hiragana: "え", katakana: "エ" })
    } else if same(romaji, "o") {
        Some(Kana { hiragana: "お", katakana: "オ" })
    } else if same(romaji, "ka") {
        Some(Kana { hiragana: "か", katakana: "カ" })
    } else if same(romaji, "ki") {
        Some(Kana { hiragana: "き", katakana: "キ" })
    } else if same(romaji, "ku") {
        Some(Kana { hiragana: "く", katakana: "ク" })
    } else if same(romaji, "ke") {
        Some(Kana { hiragana: "け", katakana: "ケ" })
    } else if same(romaji, "ko") {
        Some(Kana { hiragana: "こ", katakana: "コ" })
    } else if same(romaji, "sa") {
        Some(Kana { hiragana: "さ", katakana: "サ" })
    } else if same(romaji, "si") {
        Some(Kana { hiragana: "し", katakana: "シ" })
    } else if same(romaji, "su") {
        Some(Kana { hiragana: "す", katakana: "ス" })
    } else if same(romaji, "se") {
        Some(Kana { hiragana: "せ", katakana: "セ" })
    } else if same(romaji, "so") {
        Some(Kana { hiragana: "そ", katakana: "ソ" })
    } else if same(romaji, "ta") {
        Some(Kana { hiragana: "た", katakana: "タ" })
    } else if same(romaji, "ti") {
        Some(Kana { hiragana: "ち", katakana: "チ" })
    } else if same(romaji, "tu") {
        Some(Kana { hiragana: "つ", katakana: "ツ" })
    } else if same(romaji, "te") {
        Some(Kana { hiragana: "て", katakana: "テ" })
    } else if same(romaji, "to") {
        Some(Kana { hiragana: "と", katakana: "ト" })
    } else if same(romaji, "na") {
        Some(Kana { hiragana: "な", katakana: "ナ" })
    } else if same(romaji, "ni") {
        Some(Kana { hiragana: "に", katakana: "ニ" })
    } else if same(romaji, "nu") {
        Some(Kana { hiragana: "ぬ", katakana: "ヌ" })
    } else if same(romaji, "ne") {
        Some(Kana { hiragana: "ね", katakana: "ネ" })
    } else if same(romaji, "no") {
        Some(Kana { hiragana: "の", katakana: "ノ" })
    } else if same(romaji, "ha") {
        Some(Kana { hiragana: "は", katakana: "ハ" })
    } else if same(romaji, "hi") {
        Some(Kana { hiragana: "ひ", katakana: "ヒ" })
    } else if same(romaji, "hu") {
        Some(Kana { hiragana: "ふ", katakana: "フ" })
    } else if same(romaji, "he") {
        Some(Kana { hiragana: "へ", katakana: "ヘ" })
    } else if same(romaji, "ho") {
        Some(Kana { hiragana: "ほ", katakana: "ホ" })
    } else if same(romaji, "ma") {
        Some(Kana { hiragana: "ま", katakana: "マ" })
    } else if same(romaji, "mi") {
        Some(Kana { hiragana: "み", katakana: "ミ" })
    } else if same(romaji, "mu") {
        Some(Kana { hiragana: "む", katakana: "ム" })
    } else if same(romaji, "me") {
        Some(Kana { hiragana: "め", katakana: "メ" })
    } else if same(romaji, "mo") {
        Some(Kana { hiragana: "も", katakana: "モ" })
    } else if same(romaji, "ra") {
        Some(Kana { hiragana: "ら", katakana: "ラ" })
    } else if same(romaji, "ri") {
        Some(Kana { hiragana: "り", katakana: "リ" })
    } else if same(romaji, "ru") {
        Some(Kana { hiragana: "る", katakana: "ル" })
    } else if same(romaji, "re") {
        Some(Kana { hiragana: "れ", katakana: "レ" })
    } else if same(romaji, "ro") {
        Some(Kana { hiragana: "ろ", katakana: "ロ" })
    } else if same(romaji, "ga") {
        Some(Kana { hiragana: "が", katakana: "ガ" })
    } else if same(romaji, "gi") {
        Some(Kana { hiragana: "ぎ", katakana: "ギ" })
    } else if same(romaji, "gu") {
        Some(Kana { hiragana: "ぐ", katakana: "グ" })
    } else if same(romaji, "ge") {
        Some(Kana { hiragana: "げ", katakana: "ゲ" })
    } else if same(romaji, "go") {
        Some(Kana { hiragana: "ご", katakana: "ゴ" })
    } else if same(romaji, "za") {
        Some(Kana { hiragana: "ざ", katakana: "ザ" })
    } else if same(romaji, "zi") {
        Some(Kana { hiragana: "じ", katakana: "ジ" })
    } else if same(romaji, "zu") {
        Some(Kana { hiragana: "ず", katakana: "ズ" })
    } else if same(romaji, "ze") {
        Some(Kana { hiragana: "ぜ", katakana: "ゼ" })
    } else if same(romaji, "zo") {
        Some(Kana { hiragana: "ぞ", katakana: "ゾ" })
    } else if same(romaji, "da") {
        Some(Kana { hiragana: "だ", katakana: "ダ" })
    } else if same(romaji, "di") {
        Some(Kana { hiragana: "ぢ", katakana: "ヂ" })
    } else if same(romaji, "du") {
        Some(Kana { hiragana: "づ", katakana: "ヅ" })
    } else if same(romaji, "de") {
        Some(Kana { hiragana: "で", katakana: "デ" })
    } else if same(romaji, "do") {
        Some(Kana { hiragana: "ど", katakana: "ド" })
    } else if same(romaji, "ba") {
        Some(Kana { hiragana: "ば", katakana: "バ" })
    } else if same(romaji, "bi") {
        Some(Kana { hiragana: "び", katakana: "ビ" })
    } else if same(romaji, "bu") {
        Some(Kana { hiragana: "ぶ", katakana: "ブ" })
    } else if same(romaji, "be") {
        Some(Kana { hiragana: "べ", katakana: "ベ" })
    } else if same(romaji, "bo") {
        Some(Kana { hiragana: "ぼ", katakana: "ボ" })
    } else if same(romaji, "pa") {
        Some(Kana { hiragana: "ぱ", katakana: "パ" })
    } else if same(romaji, "pi") {
        Some(Kana { hiragana: "ぴ", katakana: "ピ" })
    } else if same(romaji, "pu") {
        Some(Kana { hiragana: "ぷ", katakana: "プ" })
    } else if same(romaji, "pe") {
        Some(Kana { hiragana: "ぺ", katakana: "ペ" })
    } else if same(romaji, "po") {
        Some(Kana { hiragana: "ぽ", katakana: "ポ" })
    } else if same(romaji, "ya") {
        Some(Kana { hiragana: "や", katakana: "ヤ" })
    } else if same(romaji, "yu") {
        Some(Kana { hiragana: "ゆ", katakana: "ユ" })
    } else if same(romaji, "yo") {
        Some(Kana { hiragana: "よ", katakana: "ヨ" })
    } else if same(romaji, "wa") {
        Some(Kana { hiragana: "わ", katakana: "ワ" })
    } else if same(romaji, "wo") {
        Some(Kana { hiragana: "を", katakana: "ヲ" })
    } else if same(romaji, "shi") {
        Some(Kana { hiragana: "し", katakana: "シ" })
    } else if same(romaji, "chi") {
        Some(Kana { hiragana: "ち", katakana: "チ" })
    } else if same(romaji, "tsu") {
        Some(Kana { hiragana: "つ", katakana: "ツ" })
    } else if same(romaji, "fu") {
        Some(Kana { hiragana: "ふ", katakana: "フ" })
    } else if same(romaji, "ji") {
        Some(Kana { hiragana: "じ", katakana: "ジ" })
    } else if same(romaji, "n'") {
        Some(Kana { hiragana: "ん", katakana: "ン" })
    } else if same(romaji, "n") {
        Some(Kana { hiragana: "ん", katakana: "ン" })
    } else if same(romaji, "-") {
        Some(Kana { hiragana: "ー", katakana: "ー" })
    } else if same(romaji, "kya") {
        Some(Kana { hiragana: "きゃ", katakana: "キャ" })
    } else if same(romaji, "kyu") {
        Some(Kana { hiragana: "きゅ", katakana: "キュ" })
    } else if same(romaji, "kyo") {
        Some(Kana { hiragana: "きょ", katakana: "キョ" })
    } else if same(romaji, "sha") {
        Some(Kana { hiragana: "しゃ", katakana: "シャ" })
    } else if same(romaji, "shu") {
        Some(Kana { hiragana: "しゅ", katakana: "シュ" })
    } else if same(romaji, "sho") {
        Some(Kana { hiragana: "しょ", katakana: "ショ" })
    } else if same(romaji, "sya") {
        Some(Kana { hiragana: "しゃ", katakana: "シャ" })
    } else if same(romaji, "syu") {
        Some(Kana { hiragana: "しゅ", katakana: "シュ" })
    } else if same(romaji, "syo") {
        Some(Kana { hiragana: "しょ", katakana: "ショ" })
    } else if same(romaji, "cha") {
        Some(Kana { hiragana: "ちゃ", katakana: "チャ" })
    } else if same(romaji, "chu") {
        Some(Kana { hiragana: "ちゅ", katakana: "チュ" })
    } else if same(romaji, "cho") {
        Some(Kana { hiragana: "ちょ", katakana: "チョ" })
    } else if same(romaji, "tya") {
        Some(Kana { hiragana: "ちゃ", katakana: "チャ" })
    } else if same(romaji, "tyu") {
        Some(Kana { hiragana: "ちゅ", katakana: "チュ" })
    } else if same(romaji, "tyo") {
        Some(Kana { hiragana: "ちょ", katakana: "チョ" })
    } else if same(romaji, "nya") {
        Some(Kana { hiragana: "にゃ", katakana: "ニャ" })
    } else if same(romaji, "nyu") {
        Some(Kana { hiragana: "にゅ", katakana: "ニュ" })
    } else if same(romaji, "nyo") {
        Some(Kana { hiragana: "にょ", katakana: "ニョ" })
    } else if same(romaji, "hya") {
        Some(Kana { hiragana: "ひゃ", katakana: "ヒャ" })
    } else if same(romaji, "hyu") {
        Some(Kana { hiragana: "ひゅ", katakana: "ヒュ" })
    } else if same(romaji, "hyo") {
        Some(Kana { hiragana: "ひょ", katakana: "ヒョ" })
    } else if same(romaji, "mya") {
        Some(Kana { hiragana: "みゃ", katakana: "ミャ" })
    } else if same(romaji, "myu") {
        Some(Kana { hiragana: "みゅ", katakana: "ミュ" })
    } else if same(romaji, "myo") {
        Some(Kana { hiragana: "みょ", katakana: "ミョ" })
    } else if same(romaji, "rya") {
        Some(Kana { hiragana: "りゃ", katakana: "リャ" })
    } else if same(romaji, "ryu") {
        Some(Kana { hiragana: "りゅ", katakana: "リュ" })
    } else if same(romaji, "ryo") {
        Some(Kana { hiragana: "りょ", katakana: "リョ" })
    } else if same(romaji, "gya") {
        Some(Kana { hiragana: "ぎゃ", katakana: "ギャ" })
    } else if same(romaji, "gyu") {
        Some(Kana { hiragana: "ぎゅ", katakana: "ギュ" })
    } else if same(romaji, "gyo") {
        Some(Kana { hiragana: "ぎょ", katakana: "ギョ" })
    } else if same(romaji, "ja") {
        Some(Kana { hiragana: "じゃ", katakana: "ジャ" })
    } else if same(romaji, "ju") {
        Some(Kana { hiragana: "じゅ", katakana: "ジュ" })
    } else if same(romaji, "jo") {
        Some(Kana { hiragana: "じょ", katakana: "ジョ" })
    } else if same(romaji, "jya") {
        Some(Kana { hiragana: "じゃ", katakana: "ジャ" })
    } else if same(romaji, "jyu") {
        Some(Kana { hiragana: "じゅ", katakana: "ジュ" })
    } else if same(romaji, "jyo") {
        Some(Kana { hiragana: "じょ", katakana: "ジョ" })
    } else if same(romaji, "zya") {
        Some(Kana { hiragana: "じゃ", katakana: "ジャ" })
    } else if same(romaji, "zyu") {
        Some(Kana { hiragana: "じゅ", katakana: "ジュ" })
    } else if same(romaji, "zyo") {
        Some(Kana { hiragana: "じょ", katakana: "ジョ" })
    } else if same(romaji, "bya") {
        Some(Kana { hiragana: "びゃ", katakana: "ビャ" })
    } else if same(romaji, "byu") {
        Some(Kana { hiragana: "びゅ", katakana: "ビュ" })
    } else if same(romaji, "byo") {
        Some(Kana { hiragana: "びょ", katakana: "ビョ" })
    } else if same(romaji, "pya") {
        Some(Kana { hiragana: "ぴゃ", katakana: "ピャ" })
    } else if same(romaji, "pyu") {
        Some(Kana { hiragana: "ぴゅ", katakana: "ピュ" })
    } else if same(romaji, "pyo") {
        Some(Kana { hiragana: "ぴょ", katakana: "ピョ" })
    } else if same(romaji, "dya") {
        Some(Kana { hiragana: "ぢゃ", katakana: "ヂャ" })
    } else if same(romaji, "dyu") {
        Some(Kana { hiragana: "ぢゅ", katakana: "ヂュ" })
    } else if same(romaji, "dyo") {
        Some(Kana { hiragana: "ぢょ", katakana: "ヂョ" })
    } else {
        None
    }
}

} // verus!
