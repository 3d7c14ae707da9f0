use jpv_lib::query::Mode;
use jpv_lib::romaji::{analyze, process_query};

fn hiragana(input: &str) -> String {
    process_query(input, Mode::Hiragana)
}

fn katakana(input: &str) -> String {
    process_query(input, Mode::Katakana)
}

#[test]
fn basic_syllables() {
    assert_eq!(hiragana("aiueo"), "あいうえお");
    assert_eq!(hiragana("kakikukeko"), "かきくけこ");
    assert_eq!(hiragana("sashisuseso"), "さしすせそ");
    assert_eq!(hiragana("tachitsuteto"), "たちつてと");
    assert_eq!(hiragana("hahifuheho"), "はひふへほ");
    assert_eq!(hiragana("yayuyo"), "やゆよ");
    assert_eq!(hiragana("wawo"), "わを");
    assert_eq!(hiragana("gagigugego"), "がぎぐげご");
    assert_eq!(hiragana("papipupepo"), "ぱぴぷぺぽ");
    assert_eq!(katakana("aiueo"), "アイウエオ");
    assert_eq!(katakana("tabemono"), "タベモノ");
}

#[test]
fn alternative_spellings() {
    assert_eq!(hiragana("si"), "し");
    assert_eq!(hiragana("ti"), "ち");
    assert_eq!(hiragana("tu"), "つ");
    assert_eq!(hiragana("hu"), "ふ");
    assert_eq!(hiragana("zi"), "じ");
    assert_eq!(hiragana("ji"), "じ");
}

#[test]
fn palatalized_syllables() {
    assert_eq!(hiragana("kyasha"), "きゃしゃ");
    assert_eq!(hiragana("chuu"), "ちゅう");
    assert_eq!(hiragana("ryokou"), "りょこう");
    assert_eq!(hiragana("jo"), "じょ");
    assert_eq!(katakana("nyu-su"), "ニュース");
}

#[test]
fn geminate_consonants() {
    assert_eq!(hiragana("kitte"), "きって");
    assert_eq!(hiragana("gakkou"), "がっこう");
    assert_eq!(hiragana("zasshi"), "ざっし");
    assert_eq!(hiragana("matcha"), "まっちゃ");
    assert_eq!(katakana("kappu"), "カップ");
}

#[test]
fn syllabic_n() {
    assert_eq!(hiragana("konnichiha"), "こんにちは");
    assert_eq!(hiragana("kan'i"), "かんい");
    assert_eq!(hiragana("kani"), "かに");
    assert_eq!(hiragana("hon"), "ほん");
    assert_eq!(hiragana("shinbun"), "しんぶん");
    assert_eq!(hiragana("nihongo"), "にほんご");
}

#[test]
fn long_vowel_mark() {
    assert_eq!(katakana("ko-hi-"), "コーヒー");
    assert_eq!(katakana("ra-men"), "ラーメン");
}

#[test]
fn unknown_characters_pass_through() {
    assert_eq!(hiragana("食べru"), "食べる");
    assert_eq!(hiragana("a b"), "あ b");
    assert_eq!(hiragana("x"), "x");
    assert_eq!(hiragana("KA"), "KA");
    assert_eq!(hiragana(""), "");
}

#[test]
fn unfiltered_mode_keeps_the_input() {
    assert_eq!(process_query("tabemono 123", Mode::Unfiltered), "tabemono 123");
}

#[test]
fn segments_cover_the_input() {
    let input = "nihongo wo benkyou shimasu";
    let segments = analyze(input);
    let joined: String = segments.iter().map(|s| s.romaji).collect();
    assert_eq!(joined, input);
    assert_eq!(segments[0].romaji, "ni");
    assert_eq!(segments[0].hiragana(), "に");
    assert_eq!(segments[0].katakana(), "ニ");
    assert_eq!(segments[2].romaji, "n");
    assert_eq!(segments[2].hiragana(), "ん");
}
