//! Parts of speech and sets of them.
use vstd::prelude::*;

use crate::text::same;

verus! {

/// The part of speech of a sense. The order of the variants is the order in
/// which a set of them is walked.
#[derive(Clone, Copy, Debug, PartialEq, Eq, Structural, Hash)]
pub enum PartOfSpeech {
    /// Ichidan verb.
    VerbIchidan,
    /// Ichidan verb of the kureru class.
    VerbIchidanS,
    /// Godan verb ending in u.
    VerbGodanU,
    /// Godan verb ending in tsu.
    VerbGodanTsu,
    /// Godan verb ending in ru.
    VerbGodanRu,
    /// Godan verb ending in ku.
    VerbGodanK,
    /// Godan verb ending in gu.
    VerbGodanG,
    /// Godan verb ending in mu.
    VerbGodanM,
    /// Godan verb ending in bu.
    VerbGodanB,
    /// Godan verb ending in nu.
    VerbGodanN,
    /// Godan verb ending in su.
    VerbGodanS,
    /// Godan verb of the -aru class.
    VerbGodanAru,
    /// Godan verb ending in ru, irregular.
    VerbGodanRI,
    /// Godan verb ending in u, special class.
    VerbGodanUS,
    /// Godan verb of the old uru class.
    VerbGodanUru,
    /// Godan verb of the iku class.
    VerbGodanKS,
    /// Suru verb, special class.
    VerbSuruSpecial,
    /// Suru verb, with suru included.
    VerbSuruIncluded,
    /// Kuru verb.
    VerbKuru,
    /// Adjective ending in i.
    AdjectiveI,
    /// Adjective of the yoi/ii class.
    AdjectiveIx,
    /// Adjectival noun.
    AdjectiveNa,
    /// Common noun.
    Noun,
    /// Adverbial noun.
    NounAdverbial,
    /// Proper noun.
    NounProper,
    /// Noun used as a prefix.
    NounPrefix,
    /// Noun used as a suffix.
    NounSuffix,
    /// Temporal noun.
    NounTemporal,
    /// Numeric.
    Numeric,
    /// Pronoun.
    Pronoun,
    /// Prefix.
    Prefix,
    /// Particle.
    Particle,
    /// Suffix.
    Suffix,
    /// Unclassified.
    Unclassified,
    /// Noun or verb acting prenominally.
    AdjectiveF,
    /// Archaic adjective of the kari class.
    AdjectiveKari,
    /// Archaic adjective of the ku class.
    AdjectiveKu,
    /// Archaic adjectival noun.
    AdjectiveNari,
    /// Noun that takes the particle no.
    AdjectiveNo,
    /// Pre-noun adjectival.
    AdjectivePreNoun,
    /// Archaic adjective of the shiku class.
    AdjectiveShiku,
    /// Adjective of the taru class.
    AdjectiveTaru,
    /// Adverb.
    Adverb,
    /// Adverb taking the particle to.
    AdverbTo,
    /// Auxiliary.
    Auxiliary,
    /// Auxiliary adjective.
    AuxiliaryAdjective,
    /// Auxiliary verb.
    AuxiliaryVerb,
    /// Conjunction.
    Conjunction,
    /// Copula.
    Copula,
    /// Counter.
    Counter,
    /// Expression.
    Expression,
    /// Interjection.
    Interjection,
    /// Verb of unspecified class.
    VerbUnspecified,
    /// Nidan verb, lower class, ending in au.
    VerbNidanALower,
    /// Nidan verb, upper class, ending in bu.
    VerbNidanBUpper,
    /// Nidan verb, lower class, ending in bu.
    VerbNidanBLower,
    /// Nidan verb, upper class, ending in du.
    VerbNidanDUpper,
    /// Nidan verb, lower class, ending in du.
    VerbNidanDLower,
    /// Nidan verb, upper class, ending in gu.
    VerbNidanGUpper,
    /// Nidan verb, lower class, ending in gu.
    VerbNidanGLower,
    /// Nidan verb, upper class, ending in hu.
    VerbNidanHUpper,
    /// Nidan verb, lower class, ending in hu.
    VerbNidanHLower,
    /// Nidan verb, upper class, ending in ku.
    VerbNidanKUpper,
    /// Nidan verb, lower class, ending in ku.
    VerbNidanKLower,
    /// Nidan verb, upper class, ending in mu.
    VerbNidanMUpper,
    /// Nidan verb, lower class, ending in mu.
    VerbNidanMLower,
    /// Nidan verb, lower class, ending in nu.
    VerbNidanNLower,
    /// Nidan verb, upper class, ending in ru.
    VerbNidanRUpper,
    /// Nidan verb, lower class, ending in ru.
    VerbNidanRLower,
    /// Nidan verb, lower class, ending in su.
    VerbNidanSLower,
    /// Nidan verb, upper class, ending in tu.
    VerbNidanTUpper,
    /// Nidan verb, lower class, ending in tu.
    VerbNidanTLower,
    /// Nidan verb, lower class, ending in wu.
    VerbNidanWLower,
    /// Nidan verb, upper class, ending in yu.
    VerbNidanYUpper,
    /// Nidan verb, lower class, ending in yu.
    VerbNidanYLower,
    /// Nidan verb, lower class, ending in zu.
    VerbNidanZLower,
    /// Yodan verb ending in bu.
    VerbYodanB,
    /// Yodan verb ending in gu.
    VerbYodanG,
    /// Yodan verb ending in hu.
    VerbYodanH,
    /// Yodan verb ending in ku.
    VerbYodanK,
    /// Yodan verb ending in mu.
    VerbYodanM,
    /// Yodan verb ending in nu.
    VerbYodanN,
    /// Yodan verb ending in ru.
    VerbYodanR,
    /// Yodan verb ending in su.
    VerbYodanS,
    /// Yodan verb ending in tu.
    VerbYodanT,
    /// Intransitive verb.
    VerbIntransitive,
    /// Irregular verb ending in nu.
    VerbIrregularN,
    /// Irregular verb ending in ru.
    VerbIrregularR,
    /// Noun or participle that takes suru.
    VerbSuru,
    /// Su verb, the precursor of suru.
    VerbSuruClassical,
    /// Transitive verb.
    VerbTransitive,
    /// Ichidan verb of the zuru class.
    VerbZuru,
}

/// How many parts of speech there are.
pub const PART_OF_SPEECH_COUNT: u8 = 92;

impl PartOfSpeech {
    /// Position of the variant in the closed list.
    pub open spec fn ordinal(self) -> u8 {
        match self {
            PartOfSpeech::VerbIchidan => 0,
            PartOfSpeech::VerbIchidanS => 1,
            PartOfSpeech::VerbGodanU => 2,
            PartOfSpeech::VerbGodanTsu => 3,
            PartOfSpeech::VerbGodanRu => 4,
            PartOfSpeech::VerbGodanK => 5,
            PartOfSpeech::VerbGodanG => 6,
            PartOfSpeech::VerbGodanM => 7,
            PartOfSpeech::VerbGodanB => 8,
            PartOfSpeech::VerbGodanN => 9,
            PartOfSpeech::VerbGodanS => 10,
            PartOfSpeech::VerbGodanAru => 11,
            PartOfSpeech::VerbGodanRI => 12,
            PartOfSpeech::VerbGodanUS => 13,
            PartOfSpeech::VerbGodanUru => 14,
            PartOfSpeech::VerbGodanKS => 15,
            PartOfSpeech::VerbSuruSpecial => 16,
            PartOfSpeech::VerbSuruIncluded => 17,
            PartOfSpeech::VerbKuru => 18,
            PartOfSpeech::AdjectiveI => 19,
            PartOfSpeech::AdjectiveIx => 20,
            PartOfSpeech::AdjectiveNa => 21,
            PartOfSpeech::Noun => 22,
            PartOfSpeech::NounAdverbial => 23,
            PartOfSpeech::NounProper => 24,
            PartOfSpeech::NounPrefix => 25,
            PartOfSpeech::NounSuffix => 26,
            PartOfSpeech::NounTemporal => 27,
            PartOfSpeech::Numeric => 28,
            PartOfSpeech::Pronoun => 29,
            PartOfSpeech::Prefix => 30,
            PartOfSpeech::Particle => 31,
            PartOfSpeech::Suffix => 32,
            PartOfSpeech::Unclassified => 33,
            PartOfSpeech::AdjectiveF => 34,
            PartOfSpeech::AdjectiveKari => 35,
            PartOfSpeech::AdjectiveKu => 36,
            PartOfSpeech::AdjectiveNari => 37,
            PartOfSpeech::AdjectiveNo => 38,
            PartOfSpeech::AdjectivePreNoun => 39,
            PartOfSpeech::AdjectiveShiku => 40,
            PartOfSpeech::AdjectiveTaru => 41,
            PartOfSpeech::Adverb => 42,
            PartOfSpeech::AdverbTo => 43,
            PartOfSpeech::Auxiliary => 44,
            PartOfSpeech::AuxiliaryAdjective => 45,
            PartOfSpeech::AuxiliaryVerb => 46,
            PartOfSpeech::Conjunction => 47,
            PartOfSpeech::Copula => 48,
            PartOfSpeech::Counter => 49,
            PartOfSpeech::Expression => 50,
            PartOfSpeech::Interjection => 51,
            PartOfSpeech::VerbUnspecified => 52,
            PartOfSpeech::VerbNidanALower => 53,
            PartOfSpeech::VerbNidanBUpper => 54,
            PartOfSpeech::VerbNidanBLower => 55,
            PartOfSpeech::VerbNidanDUpper => 56,
            PartOfSpeech::VerbNidanDLower => 57,
            PartOfSpeech::VerbNidanGUpper => 58,
            PartOfSpeech::VerbNidanGLower => 59,
            PartOfSpeech::VerbNidanHUpper => 60,
            PartOfSpeech::VerbNidanHLower => 61,
            PartOfSpeech::VerbNidanKUpper => 62,
            PartOfSpeech::VerbNidanKLower => 63,
            PartOfSpeech::VerbNidanMUpper => 64,
            PartOfSpeech::VerbNidanMLower => 65,
            PartOfSpeech::VerbNidanNLower => 66,
            PartOfSpeech::VerbNidanRUpper => 67,
            PartOfSpeech::VerbNidanRLower => 68,
            PartOfSpeech::VerbNidanSLower => 69,
            PartOfSpeech::VerbNidanTUpper => 70,
            PartOfSpeech::VerbNidanTLower => 71,
            PartOfSpeech::VerbNidanWLower => 72,
            PartOfSpeech::VerbNidanYUpper => 73,
            PartOfSpeech::VerbNidanYLower => 74,
            PartOfSpeech::VerbNidanZLower => 75,
            PartOfSpeech::VerbYodanB => 76,
            PartOfSpeech::VerbYodanG => 77,
            PartOfSpeech::VerbYodanH => 78,
            PartOfSpeech::VerbYodanK => 79,
            PartOfSpeech::VerbYodanM => 80,
            PartOfSpeech::VerbYodanN => 81,
            PartOfSpeech::VerbYodanR => 82,
            PartOfSpeech::VerbYodanS => 83,
            PartOfSpeech::VerbYodanT => 84,
            PartOfSpeech::VerbIntransitive => 85,
            PartOfSpeech::VerbIrregularN => 86,
            PartOfSpeech::VerbIrregularR => 87,
            PartOfSpeech::VerbSuru => 88,
            PartOfSpeech::VerbSuruClassical => 89,
            PartOfSpeech::VerbTransitive => 90,
            PartOfSpeech::VerbZuru => 91,
        }
    }

    /// The variant at a position of the closed list.
    pub open spec fn at(index: u8) -> Option<PartOfSpeech> {
        match index {
            0u8 => Some(PartOfSpeech::VerbIchidan),
            1u8 => Some(PartOfSpeech::VerbIchidanS),
            2u8 => Some(PartOfSpeech::VerbGodanU),
            3u8 => Some(PartOfSpeech::VerbGodanTsu),
            4u8 => Some(PartOfSpeech::VerbGodanRu),
            5u8 => Some(PartOfSpeech::VerbGodanK),
            6u8 => Some(PartOfSpeech::VerbGodanG),
            7u8 => Some(PartOfSpeech::VerbGodanM),
            8u8 => Some(PartOfSpeech::VerbGodanB),
            9u8 => Some(PartOfSpeech::VerbGodanN),
            10u8 => Some(PartOfSpeech::VerbGodanS),
            11u8 => Some(PartOfSpeech::VerbGodanAru),
            12u8 => Some(PartOfSpeech::VerbGodanRI),
            13u8 => Some(PartOfSpeech::VerbGodanUS),
            14u8 => Some(PartOfSpeech::VerbGodanUru),
            15u8 => Some(PartOfSpeech::VerbGodanKS),
            16u8 => Some(PartOfSpeech::VerbSuruSpecial),
            17u8 => Some(PartOfSpeech::VerbSuruIncluded),
            18u8 => Some(PartOfSpeech::VerbKuru),
            19u8 => Some(PartOfSpeech::AdjectiveI),
            20u8 => Some(PartOfSpeech::AdjectiveIx),
            21u8 => Some(PartOfSpeech::AdjectiveNa),
            22u8 => Some(PartOfSpeech::Noun),
            23u8 => Some(PartOfSpeech::NounAdverbial),
            24u8 => Some(PartOfSpeech::NounProper),
            25u8 => Some(PartOfSpeech::NounPrefix),
            26u8 => Some(PartOfSpeech::NounSuffix),
            27u8 => Some(PartOfSpeech::NounTemporal),
            28u8 => Some(PartOfSpeech::Numeric),
            29u8 => Some(PartOfSpeech::Pronoun),
            30u8 => Some(PartOfSpeech::Prefix),
            31u8 => Some(PartOfSpeech::Particle),
            32u8 => Some(PartOfSpeech::Suffix),
            33u8 => Some(PartOfSpeech::Unclassified),
            34u8 => Some(PartOfSpeech::AdjectiveF),
            35u8 => Some(PartOfSpeech::AdjectiveKari),
            36u8 => Some(PartOfSpeech::AdjectiveKu),
            37u8 => Some(PartOfSpeech::AdjectiveNari),
            38u8 => Some(PartOfSpeech::AdjectiveNo),
            39u8 => Some(PartOfSpeech::AdjectivePreNoun),
            40u8 => Some(PartOfSpeech::AdjectiveShiku),
            41u8 => Some(PartOfSpeech::AdjectiveTaru),
            42u8 => Some(PartOfSpeech::Adverb),
            43u8 => Some(PartOfSpeech::AdverbTo),
            44u8 => Some(PartOfSpeech::Auxiliary),
            45u8 => Some(PartOfSpeech::AuxiliaryAdjective),
            46u8 => Some(PartOfSpeech::AuxiliaryVerb),
            47u8 => Some(PartOfSpeech::Conjunction),
            48u8 => Some(PartOfSpeech::Copula),
            49u8 => Some(PartOfSpeech::Counter),
            50u8 => Some(PartOfSpeech::Expression),
            51u8 => Some(PartOfSpeech::Interjection),
            52u8 => Some(PartOfSpeech::VerbUnspecified),
            53u8 => Some(PartOfSpeech::VerbNidanALower),
            54u8 => Some(PartOfSpeech::VerbNidanBUpper),
            55u8 => Some(PartOfSpeech::VerbNidanBLower),
            56u8 => Some(PartOfSpeech::VerbNidanDUpper),
            57u8 => Some(PartOfSpeech::VerbNidanDLower),
            58u8 => Some(PartOfSpeech::VerbNidanGUpper),
            59u8 => Some(PartOfSpeech::VerbNidanGLower),
            60u8 => Some(PartOfSpeech::VerbNidanHUpper),
            61u8 => Some(PartOfSpeech::VerbNidanHLower),
            62u8 => Some(PartOfSpeech::VerbNidanKUpper),
            63u8 => Some(PartOfSpeech::VerbNidanKLower),
            64u8 => Some(PartOfSpeech::VerbNidanMUpper),
            65u8 => Some(PartOfSpeech::VerbNidanMLower),
            66u8 => Some(PartOfSpeech::VerbNidanNLower),
            67u8 => Some(PartOfSpeech::VerbNidanRUpper),
            68u8 => Some(PartOfSpeech::VerbNidanRLower),
            69u8 => Some(PartOfSpeech::VerbNidanSLower),
            70u8 => Some(PartOfSpeech::VerbNidanTUpper),
            71u8 => Some(PartOfSpeech::VerbNidanTLower),
            72u8 => Some(PartOfSpeech::VerbNidanWLower),
            73u8 => Some(PartOfSpeech::VerbNidanYUpper),
            74u8 => Some(PartOfSpeech::VerbNidanYLower),
            75u8 => Some(PartOfSpeech::VerbNidanZLower),
            76u8 => Some(PartOfSpeech::VerbYodanB),
            77u8 => Some(PartOfSpeech::VerbYodanG),
            78u8 => Some(PartOfSpeech::VerbYodanH),
            79u8 => Some(PartOfSpeech::VerbYodanK),
            80u8 => Some(PartOfSpeech::VerbYodanM),
            81u8 => Some(PartOfSpeech::VerbYodanN),
            82u8 => Some(PartOfSpeech::VerbYodanR),
            83u8 => Some(PartOfSpeech::VerbYodanS),
            84u8 => Some(PartOfSpeech::VerbYodanT),
            85u8 => Some(PartOfSpeech::VerbIntransitive),
            86u8 => Some(PartOfSpeech::VerbIrregularN),
            87u8 => Some(PartOfSpeech::VerbIrregularR),
            88u8 => Some(PartOfSpeech::VerbSuru),
            89u8 => Some(PartOfSpeech::VerbSuruClassical),
            90u8 => Some(PartOfSpeech::VerbTransitive),
            91u8 => Some(PartOfSpeech::VerbZuru),
            _ => None,
        }
    }

    /// The variant that a tag of the dictionary names.
    pub open spec fn tagged(tag: Seq<char>) -> Option<PartOfSpeech> {
        if tag == "v1"@ {
            Some(PartOfSpeech::VerbIchidan)
        } else if tag == "v1-s"@ {
            Some(PartOfSpeech::VerbIchidanS)
        } else if tag == "v5u"@ {
            Some(PartOfSpeech::VerbGodanU)
        } else if tag == "v5t"@ {
            Some(PartOfSpeech::VerbGodanTsu)
        } else if tag == "v5r"@ {
            Some(PartOfSpeech::VerbGodanRu)
        } else if tag == "v5k"@ {
            Some(PartOfSpeech::VerbGodanK)
        } else if tag == "v5g"@ {
            Some(PartOfSpeech::VerbGodanG)
        } else if tag == "v5m"@ {
            Some(PartOfSpeech::VerbGodanM)
        } else if tag == "v5b"@ {
            Some(PartOfSpeech::VerbGodanB)
        } else if tag == "v5n"@ {
            Some(PartOfSpeech::VerbGodanN)
        } else if tag == "v5s"@ {
            Some(PartOfSpeech::VerbGodanS)
        } else if tag == "v5aru"@ {
            Some(PartOfSpeech::VerbGodanAru)
        } else if tag == "v5r-i"@ {
            Some(PartOfSpeech::VerbGodanRI)
        } else if tag == "v5u-s"@ {
            Some(PartOfSpeech::VerbGodanUS)
        } else if tag == "v5uru"@ {
            Some(PartOfSpeech::VerbGodanUru)
        } else if tag == "v5k-s"@ {
            Some(PartOfSpeech::VerbGodanKS)
        } else if tag == "vs-s"@ {
            Some(PartOfSpeech::VerbSuruSpecial)
        } else if tag == "vs-i"@ {
            Some(PartOfSpeech::VerbSuruIncluded)
        } else if tag == "vk"@ {
            Some(PartOfSpeech::VerbKuru)
        } else if tag == "adj-i"@ {
            Some(PartOfSpeech::AdjectiveI)
        } else if tag == "adj-ix"@ {
            Some(PartOfSpeech::AdjectiveIx)
        } else if tag == "adj-na"@ {
            Some(PartOfSpeech::AdjectiveNa)
        } else if tag == "n"@ {
            Some(PartOfSpeech::Noun)
        } else if tag == "n-adv"@ {
            Some(PartOfSpeech::NounAdverbial)
        } else if tag == "n-pr"@ {
            Some(PartOfSpeech::NounProper)
        } else if tag == "n-pref"@ {
            Some(PartOfSpeech::NounPrefix)
        } else if tag == "n-suf"@ {
            Some(PartOfSpeech::NounSuffix)
        } else if tag == "n-t"@ {
            Some(PartOfSpeech::NounTemporal)
        } else if tag == "num"@ {
            Some(PartOfSpeech::Numeric)
        } else if tag == "pn"@ {
            Some(PartOfSpeech::Pronoun)
        } else if tag == "pref"@ {
            Some(PartOfSpeech::Prefix)
        } else if tag == "prt"@ {
            Some(PartOfSpeech::Particle)
        } else if tag == "suf"@ {
            Some(PartOfSpeech::Suffix)
        } else if tag == "unc"@ {
            Some(PartOfSpeech::Unclassified)
        } else if tag == "adj-f"@ {
            Some(PartOfSpeech::AdjectiveF)
        } else if tag == "adj-kari"@ {
            Some(PartOfSpeech::AdjectiveKari)
        } else if tag == "adj-ku"@ {
            Some(PartOfSpeech::AdjectiveKu)
        } else if tag == "adj-nari"@ {
            Some(PartOfSpeech::AdjectiveNari)
        } else if tag == "adj-no"@ {
            Some(PartOfSpeech::AdjectiveNo)
        } else if tag == "adj-pn"@ {
            Some(PartOfSpeech::AdjectivePreNoun)
        } else if tag == "adj-shiku"@ {
            Some(PartOfSpeech::AdjectiveShiku)
        } else if tag == "adj-t"@ {
            Some(PartOfSpeech::AdjectiveTaru)
        } else if tag == "adv"@ {
            Some(PartOfSpeech::Adverb)
        } else if tag == "adv-to"@ {
            Some(PartOfSpeech::AdverbTo)
        } else if tag == "aux"@ {
            Some(PartOfSpeech::Auxiliary)
        } else if tag == "aux-adj"@ {
            Some(PartOfSpeech::AuxiliaryAdjective)
        } else if tag == "aux-v"@ {
            Some(PartOfSpeech::AuxiliaryVerb)
        } else if tag == "conj"@ {
            Some(PartOfSpeech::Conjunction)
        } else if tag == "cop"@ {
            Some(PartOfSpeech::Copula)
        } else if tag == "ctr"@ {
            Some(PartOfSpeech::Counter)
        } else if tag == "exp"@ {
            Some(PartOfSpeech::Expression)
        } else if tag == "int"@ {
            Some(PartOfSpeech::Interjection)
        } else if tag == "v-unspec"@ {
            Some(PartOfSpeech::VerbUnspecified)
        } else if tag == "v2a-s"@ {
            Some(PartOfSpeech::VerbNidanALower)
        } else if tag == "v2b-k"@ {
            Some(PartOfSpeech::VerbNidanBUpper)
        } else if tag == "v2b-s"@ {
            Some(PartOfSpeech::VerbNidanBLower)
        } else if tag == "v2d-k"@ {
            Some(PartOfSpeech::VerbNidanDUpper)
        } else if tag == "v2d-s"@ {
            Some(PartOfSpeech::VerbNidanDLower)
        } else if tag == "v2g-k"@ {
            Some(PartOfSpeech::VerbNidanGUpper)
        } else if tag == "v2g-s"@ {
            Some(PartOfSpeech::VerbNidanGLower)
        } else if tag == "v2h-k"@ {
            Some(PartOfSpeech::VerbNidanHUpper)
        } else if tag == "v2h-s"@ {
            Some(PartOfSpeech::VerbNidanHLower)
        } else if tag == "v2k-k"@ {
            Some(PartOfSpeech::VerbNidanKUpper)
        } else if tag == "v2k-s"@ {
            Some(PartOfSpeech::VerbNidanKLower)
        } else if tag == "v2m-k"@ {
            Some(PartOfSpeech::VerbNidanMUpper)
        } else if tag == "v2m-s"@ {
            Some(PartOfSpeech::VerbNidanMLower)
        } else if tag == "v2n-s"@ {
            Some(PartOfSpeech::VerbNidanNLower)
        } else if tag == "v2r-k"@ {
            Some(PartOfSpeech::VerbNidanRUpper)
        } else if tag == "v2r-s"@ {
            Some(PartOfSpeech::VerbNidanRLower)
        } else if tag == "v2s-s"@ {
            Some(PartOfSpeech::VerbNidanSLower)
        } else if tag == "v2t-k"@ {
            Some(PartOfSpeech::VerbNidanTUpper)
        } else if tag == "v2t-s"@ {
            Some(PartOfSpeech::VerbNidanTLower)
        } else if tag == "v2w-s"@ {
            Some(PartOfSpeech::VerbNidanWLower)
        } else if tag == "v2y-k"@ {
            Some(PartOfSpeech::VerbNidanYUpper)
        } else if tag == "v2y-s"@ {
            Some(PartOfSpeech::VerbNidanYLower)
        } else if tag == "v2z-s"@ {
            Some(PartOfSpeech::VerbNidanZLower)
        } else if tag == "v4b"@ {
            Some(PartOfSpeech::VerbYodanB)
        } else if tag == "v4g"@ {
            Some(PartOfSpeech::VerbYodanG)
        } else if tag == "v4h"@ {
            Some(PartOfSpeech::VerbYodanH)
        } else if tag == "v4k"@ {
            Some(PartOfSpeech::VerbYodanK)
        } else if tag == "v4m"@ {
            Some(PartOfSpeech::VerbYodanM)
        } else if tag == "v4n"@ {
            Some(PartOfSpeech::VerbYodanN)
        } else if tag == "v4r"@ {
            Some(PartOfSpeech::VerbYodanR)
        } else if tag == "v4s"@ {
            Some(PartOfSpeech::VerbYodanS)
        } else if tag == "v4t"@ {
            Some(PartOfSpeech::VerbYodanT)
        } else if tag == "vi"@ {
            Some(PartOfSpeech::VerbIntransitive)
        } else if tag == "vn"@ {
            Some(PartOfSpeech::VerbIrregularN)
        } else if tag == "vr"@ {
            Some(PartOfSpeech::VerbIrregularR)
        } else if tag == "vs"@ {
            Some(PartOfSpeech::VerbSuru)
        } else if tag == "vs-c"@ {
            Some(PartOfSpeech::VerbSuruClassical)
        } else if tag == "vt"@ {
            Some(PartOfSpeech::VerbTransitive)
        } else if tag == "vz"@ {
            Some(PartOfSpeech::VerbZuru)
        } else {
            None
        }
    }

    /// Position of the variant in the closed list.
    #[verifier::when_used_as_spec(ordinal)]
    pub fn index(self) -> (i: u8)
        ensures
            i == self.ordinal(),
            i < PART_OF_SPEECH_COUNT,
            PartOfSpeech::at(i) == Some(self),
    {
        match self {
            PartOfSpeech::VerbIchidan => 0,
            PartOfSpeech::VerbIchidanS => 1,
            PartOfSpeech::VerbGodanU => 2,
            PartOfSpeech::VerbGodanTsu => 3,
            PartOfSpeech::VerbGodanRu => 4,
            PartOfSpeech::VerbGodanK => 5,
            PartOfSpeech::VerbGodanG => 6,
            PartOfSpeech::VerbGodanM => 7,
            PartOfSpeech::VerbGodanB => 8,
            PartOfSpeech::VerbGodanN => 9,
            PartOfSpeech::VerbGodanS => 10,
            PartOfSpeech::VerbGodanAru => 11,
            PartOfSpeech::VerbGodanRI => 12,
            PartOfSpeech::VerbGodanUS => 13,
            PartOfSpeech::VerbGodanUru => 14,
            PartOfSpeech::VerbGodanKS => 15,
            PartOfSpeech::VerbSuruSpecial => 16,
            PartOfSpeech::VerbSuruIncluded => 17,
            PartOfSpeech::VerbKuru => 18,
            PartOfSpeech::AdjectiveI => 19,
            PartOfSpeech::AdjectiveIx => 20,
            PartOfSpeech::AdjectiveNa => 21,
            PartOfSpeech::Noun => 22,
            PartOfSpeech::NounAdverbial => 23,
            PartOfSpeech::NounProper => 24,
            PartOfSpeech::NounPrefix => 25,
            PartOfSpeech::NounSuffix => 26,
            PartOfSpeech::NounTemporal => 27,
            PartOfSpeech::Numeric => 28,
            PartOfSpeech::Pronoun => 29,
            PartOfSpeech::Prefix => 30,
            PartOfSpeech::Particle => 31,
            PartOfSpeech::Suffix => 32,
            PartOfSpeech::Unclassified => 33,
            PartOfSpeech::AdjectiveF => 34,
            PartOfSpeech::AdjectiveKari => 35,
            PartOfSpeech::AdjectiveKu => 36,
            PartOfSpeech::AdjectiveNari => 37,
            PartOfSpeech::AdjectiveNo => 38,
            PartOfSpeech::AdjectivePreNoun => 39,
            PartOfSpeech::AdjectiveShiku => 40,
            PartOfSpeech::AdjectiveTaru => 41,
            PartOfSpeech::Adverb => 42,
            PartOfSpeech::AdverbTo => 43,
            PartOfSpeech::Auxiliary => 44,
            PartOfSpeech::AuxiliaryAdjective => 45,
            PartOfSpeech::AuxiliaryVerb => 46,
            PartOfSpeech::Conjunction => 47,
            PartOfSpeech::Copula => 48,
            PartOfSpeech::Counter => 49,
            PartOfSpeech::Expression => 50,
            PartOfSpeech::Interjection => 51,
            PartOfSpeech::VerbUnspecified => 52,
            PartOfSpeech::VerbNidanALower => 53,
            PartOfSpeech::VerbNidanBUpper => 54,
            PartOfSpeech::VerbNidanBLower => 55,
            PartOfSpeech::VerbNidanDUpper => 56,
            PartOfSpeech::VerbNidanDLower => 57,
            PartOfSpeech::VerbNidanGUpper => 58,
            PartOfSpeech::VerbNidanGLower => 59,
            PartOfSpeech::VerbNidanHUpper => 60,
            PartOfSpeech::VerbNidanHLower => 61,
            PartOfSpeech::VerbNidanKUpper => 62,
            PartOfSpeech::VerbNidanKLower => 63,
            PartOfSpeech::VerbNidanMUpper => 64,
            PartOfSpeech::VerbNidanMLower => 65,
            PartOfSpeech::VerbNidanNLower => 66,
            PartOfSpeech::VerbNidanRUpper => 67,
            PartOfSpeech::VerbNidanRLower => 68,
            PartOfSpeech::VerbNidanSLower => 69,
            PartOfSpeech::VerbNidanTUpper => 70,
            PartOfSpeech::VerbNidanTLower => 71,
            PartOfSpeech::VerbNidanWLower => 72,
            PartOfSpeech::VerbNidanYUpper => 73,
            PartOfSpeech::VerbNidanYLower => 74,
            PartOfSpeech::VerbNidanZLower => 75,
            PartOfSpeech::VerbYodanB => 76,
            PartOfSpeech::VerbYodanG => 77,
            PartOfSpeech::VerbYodanH => 78,
            PartOfSpeech::VerbYodanK => 79,
            PartOfSpeech::VerbYodanM => 80,
            PartOfSpeech::VerbYodanN => 81,
            PartOfSpeech::VerbYodanR => 82,
            PartOfSpeech::VerbYodanS => 83,
            PartOfSpeech::VerbYodanT => 84,
            PartOfSpeech::VerbIntransitive => 85,
            PartOfSpeech::VerbIrregularN => 86,
            PartOfSpeech::VerbIrregularR => 87,
            PartOfSpeech::VerbSuru => 88,
            PartOfSpeech::VerbSuruClassical => 89,
            PartOfSpeech::VerbTransitive => 90,
            PartOfSpeech::VerbZuru => 91,
        }
    }

    /// The variant at a position, if the position is below
    /// [`PART_OF_SPEECH_COUNT`].
    #[verifier::when_used_as_spec(at)]
    pub fn from_index(index: u8) -> (p: Option<PartOfSpeech>)
        ensures
            p == PartOfSpeech::at(index),
            p is Some <==> index < PART_OF_SPEECH_COUNT,
            p matches Some(q) ==> q.ordinal() == index,
    {
        match index {
            0u8 => Some(PartOfSpeech::VerbIchidan),
            1u8 => Some(PartOfSpeech::VerbIchidanS),
            2u8 => Some(PartOfSpeech::VerbGodanU),
            3u8 => Some(PartOfSpeech::VerbGodanTsu),
            4u8 => Some(PartOfSpeech::VerbGodanRu),
            5u8 => Some(PartOfSpeech::VerbGodanK),
            6u8 => Some(PartOfSpeech::VerbGodanG),
            7u8 => Some(PartOfSpeech::VerbGodanM),
            8u8 => Some(PartOfSpeech::VerbGodanB),
            9u8 => Some(PartOfSpeech::VerbGodanN),
            10u8 => Some(PartOfSpeech::VerbGodanS),
            11u8 => Some(PartOfSpeech::VerbGodanAru),
            12u8 => Some(PartOfSpeech::VerbGodanRI),
            13u8 => Some(PartOfSpeech::VerbGodanUS),
            14u8 => Some(PartOfSpeech::VerbGodanUru),
            15u8 => Some(PartOfSpeech::VerbGodanKS),
            16u8 => Some(PartOfSpeech::VerbSuruSpecial),
            17u8 => Some(PartOfSpeech::VerbSuruIncluded),
            18u8 => Some(PartOfSpeech::VerbKuru),
            19u8 => Some(PartOfSpeech::AdjectiveI),
            20u8 => Some(PartOfSpeech::AdjectiveIx),
            21u8 => Some(PartOfSpeech::AdjectiveNa),
            22u8 => Some(PartOfSpeech::Noun),
            23u8 => Some(PartOfSpeech::NounAdverbial),
            24u8 => Some(PartOfSpeech::NounProper),
            25u8 => Some(PartOfSpeech::NounPrefix),
            26u8 => Some(PartOfSpeech::NounSuffix),
            27u8 => Some(PartOfSpeech::NounTemporal),
            28u8 => Some(PartOfSpeech::Numeric),
            29u8 => Some(PartOfSpeech::Pronoun),
            30u8 => Some(PartOfSpeech::Prefix),
            31u8 => Some(PartOfSpeech::Particle),
            32u8 => Some(PartOfSpeech::Suffix),
            33u8 => Some(PartOfSpeech::Unclassified),
            34u8 => Some(PartOfSpeech::AdjectiveF),
            35u8 => Some(PartOfSpeech::AdjectiveKari),
            36u8 => Some(PartOfSpeech::AdjectiveKu),
            37u8 => Some(PartOfSpeech::AdjectiveNari),
            38u8 => Some(PartOfSpeech::AdjectiveNo),
            39u8 => Some(PartOfSpeech::AdjectivePreNoun),
            40u8 => Some(PartOfSpeech::AdjectiveShiku),
            41u8 => Some(PartOfSpeech::AdjectiveTaru),
            42u8 => Some(PartOfSpeech::Adverb),
            43u8 => Some(PartOfSpeech::AdverbTo),
            44u8 => Some(PartOfSpeech::Auxiliary),
            45u8 => Some(PartOfSpeech::AuxiliaryAdjective),
            46u8 => Some(PartOfSpeech::AuxiliaryVerb),
            47u8 => Some(PartOfSpeech::Conjunction),
            48u8 => Some(PartOfSpeech::Copula),
            49u8 => Some(PartOfSpeech::Counter),
            50u8 => Some(PartOfSpeech::Expression),
            51u8 => Some(PartOfSpeech::Interjection),
            52u8 => Some(PartOfSpeech::VerbUnspecified),
            53u8 => Some(PartOfSpeech::VerbNidanALower),
            54u8 => Some(PartOfSpeech::VerbNidanBUpper),
            55u8 => Some(PartOfSpeech::VerbNidanBLower),
            56u8 => Some(PartOfSpeech::VerbNidanDUpper),
            57u8 => Some(PartOfSpeech::VerbNidanDLower),
            58u8 => Some(PartOfSpeech::VerbNidanGUpper),
            59u8 => Some(PartOfSpeech::VerbNidanGLower),
            60u8 => Some(PartOfSpeech::VerbNidanHUpper),
            61u8 => Some(PartOfSpeech::VerbNidanHLower),
            62u8 => Some(PartOfSpeech::VerbNidanKUpper),
            63u8 => Some(PartOfSpeech::VerbNidanKLower),
            64u8 => Some(PartOfSpeech::VerbNidanMUpper),
            65u8 => Some(PartOfSpeech::VerbNidanMLower),
            66u8 => Some(PartOfSpeech::VerbNidanNLower),
            67u8 => Some(PartOfSpeech::VerbNidanRUpper),
            68u8 => Some(PartOfSpeech::VerbNidanRLower),
            69u8 => Some(PartOfSpeech::VerbNidanSLower),
            70u8 => Some(PartOfSpeech::VerbNidanTUpper),
            71u8 => Some(PartOfSpeech::VerbNidanTLower),
            72u8 => Some(PartOfSpeech::VerbNidanWLower),
            73u8 => Some(PartOfSpeech::VerbNidanYUpper),
            74u8 => Some(PartOfSpeech::VerbNidanYLower),
            75u8 => Some(PartOfSpeech::VerbNidanZLower),
            76u8 => Some(PartOfSpeech::VerbYodanB),
            77u8 => Some(PartOfSpeech::VerbYodanG),
            78u8 => Some(PartOfSpeech::VerbYodanH),
            79u8 => Some(PartOfSpeech::VerbYodanK),
            80u8 => Some(PartOfSpeech::VerbYodanM),
            81u8 => Some(PartOfSpeech::VerbYodanN),
            82u8 => Some(PartOfSpeech::VerbYodanR),
            83u8 => Some(PartOfSpeech::VerbYodanS),
            84u8 => Some(PartOfSpeech::VerbYodanT),
            85u8 => Some(PartOfSpeech::VerbIntransitive),
            86u8 => Some(PartOfSpeech::VerbIrregularN),
            87u8 => Some(PartOfSpeech::VerbIrregularR),
            88u8 => Some(PartOfSpeech::VerbSuru),
            89u8 => Some(PartOfSpeech::VerbSuruClassical),
            90u8 => Some(PartOfSpeech::VerbTransitive),
            91u8 => Some(PartOfSpeech::VerbZuru),
            _ => None,
        }
    }

    /// The variant that a tag of the dictionary names, if it names one.
    pub fn parse(tag: &str) -> (p: Option<PartOfSpeech>)
        ensures
            p == PartOfSpeech::tagged(tag@),
    {
        if same(tag, "v1") {
            Some(PartOfSpeech::VerbIchidan)
        } else if same(tag, "v1-s") {
            Some(PartOfSpeech::VerbIchidanS)
        } else if same(tag, "v5u") {
            Some(PartOfSpeech::VerbGodanU)
        } else if same(tag, "v5t") {
            Some(PartOfSpeech::VerbGodanTsu)
        } else if same(tag, "v5r") {
            Some(PartOfSpeech::VerbGodanRu)
        } else if same(tag, "v5k") {
            Some(PartOfSpeech::VerbGodanK)
        } else if same(tag, "v5g") {
            Some(PartOfSpeech::VerbGodanG)
        } else if same(tag, "v5m") {
            Some(PartOfSpeech::VerbGodanM)
        } else if same(tag, "v5b") {
            Some(PartOfSpeech::VerbGodanB)
        } else if same(tag, "v5n") {
            Some(PartOfSpeech::VerbGodanN)
        } else if same(tag, "v5s") {
            Some(PartOfSpeech::VerbGodanS)
        } else if same(tag, "v5aru") {
            Some(PartOfSpeech::VerbGodanAru)
        } else if same(tag, "v5r-i") {
            Some(PartOfSpeech::VerbGodanRI)
        } else if same(tag, "v5u-s") {
            Some(PartOfSpeech::VerbGodanUS)
        } else if same(tag, "v5uru") {
            Some(PartOfSpeech::VerbGodanUru)
        } else if same(tag, "v5k-s") {
            Some(PartOfSpeech::VerbGodanKS)
        } else if same(tag, "vs-s") {
            Some(PartOfSpeech::VerbSuruSpecial)
        } else if same(tag, "vs-i") {
            Some(PartOfSpeech::VerbSuruIncluded)
        } else if same(tag, "vk") {
            Some(PartOfSpeech::VerbKuru)
        } else if same(tag, "adj-i") {
            Some(PartOfSpeech::AdjectiveI)
        } else if same(tag, "adj-ix") {
            Some(PartOfSpeech::AdjectiveIx)
        } else if same(tag, "adj-na") {
            Some(PartOfSpeech::AdjectiveNa)
        } else if same(tag, "n") {
            Some(PartOfSpeech::Noun)
        } else if same(tag, "n-adv") {
            Some(PartOfSpeech::NounAdverbial)
        } else if same(tag, "n-pr") {
            Some(PartOfSpeech::NounProper)
        } else if same(tag, "n-pref") {
            Some(PartOfSpeech::NounPrefix)
        } else if same(tag, "n-suf") {
            Some(PartOfSpeech::NounSuffix)
        } else if same(tag, "n-t") {
            Some(PartOfSpeech::NounTemporal)
        } else if same(tag, "num") {
            Some(PartOfSpeech::Numeric)
        } else if same(tag, "pn") {
            Some(PartOfSpeech::Pronoun)
        } else if same(tag, "pref") {
            Some(PartOfSpeech::Prefix)
        } else if same(tag, "prt") {
            Some(PartOfSpeech::Particle)
        } else if same(tag, "suf") {
            Some(PartOfSpeech::Suffix)
        } else if same(tag, "unc") {
            Some(PartOfSpeech::Unclassified)
        } else if same(tag, "adj-f") {
            Some(PartOfSpeech::AdjectiveF)
        } else if same(tag, "adj-kari") {
            Some(PartOfSpeech::AdjectiveKari)
        } else if same(tag, "adj-ku") {
            Some(PartOfSpeech::AdjectiveKu)
        } else if same(tag, "adj-nari") {
            Some(PartOfSpeech::AdjectiveNari)
        } else if same(tag, "adj-no") {
            Some(PartOfSpeech::AdjectiveNo)
        } else if same(tag, "adj-pn") {
            Some(PartOfSpeech::AdjectivePreNoun)
        } else if same(tag, "adj-shiku") {
            Some(PartOfSpeech::AdjectiveShiku)
        } else if same(tag, "adj-t") {
            Some(PartOfSpeech::AdjectiveTaru)
        } else if same(tag, "adv") {
            Some(PartOfSpeech::Adverb)
        } else if same(tag, "adv-to") {
            Some(PartOfSpeech::AdverbTo)
        } else if same(tag, "aux") {
            Some(PartOfSpeech::Auxiliary)
        } else if same(tag, "aux-adj") {
            Some(PartOfSpeech::AuxiliaryAdjective)
        } else if same(tag, "aux-v") {
            Some(PartOfSpeech::AuxiliaryVerb)
        } else if same(tag, "conj") {
            Some(PartOfSpeech::Conjunction)
        } else if same(tag, "cop") {
            Some(PartOfSpeech::Copula)
        } else if same(tag, "ctr") {
            Some(PartOfSpeech::Counter)
        } else if same(tag, "exp") {
            Some(PartOfSpeech::Expression)
        } else if same(tag, "int") {
            Some(PartOfSpeech::Interjection)
        } else if same(tag, "v-unspec") {
            Some(PartOfSpeech::VerbUnspecified)
        } else if same(tag, "v2a-s") {
            Some(PartOfSpeech::VerbNidanALower)
        } else if same(tag, "v2b-k") {
            Some(PartOfSpeech::VerbNidanBUpper)
        } else if same(tag, "v2b-s") {
            Some(PartOfSpeech::VerbNidanBLower)
        } else if same(tag, "v2d-k") {
            Some(PartOfSpeech::VerbNidanDUpper)
        } else if same(tag, "v2d-s") {
            Some(PartOfSpeech::VerbNidanDLower)
        } else if same(tag, "v2g-k") {
            Some(PartOfSpeech::VerbNidanGUpper)
        } else if same(tag, "v2g-s") {
            Some(PartOfSpeech::VerbNidanGLower)
        } else if same(tag, "v2h-k") {
            Some(PartOfSpeech::VerbNidanHUpper)
        } else if same(tag, "v2h-s") {
            Some(PartOfSpeech::VerbNidanHLower)
        } else if same(tag, "v2k-k") {
            Some(PartOfSpeech::VerbNidanKUpper)
        } else if same(tag, "v2k-s") {
            Some(PartOfSpeech::VerbNidanKLower)
        } else if same(tag, "v2m-k") {
            Some(PartOfSpeech::VerbNidanMUpper)
        } else if same(tag, "v2m-s") {
            Some(PartOfSpeech::VerbNidanMLower)
        } else if same(tag, "v2n-s") {
            Some(PartOfSpeech::VerbNidanNLower)
        } else if same(tag, "v2r-k") {
            Some(PartOfSpeech::VerbNidanRUpper)
        } else if same(tag, "v2r-s") {
            Some(PartOfSpeech::VerbNidanRLower)
        } else if same(tag, "v2s-s") {
            Some(PartOfSpeech::VerbNidanSLower)
        } else if same(tag, "v2t-k") {
            Some(PartOfSpeech::VerbNidanTUpper)
        } else if same(tag, "v2t-s") {
            Some(PartOfSpeech::VerbNidanTLower)
        } else if same(tag, "v2w-s") {
            Some(PartOfSpeech::VerbNidanWLower)
        } else if same(tag, "v2y-k") {
            Some(PartOfSpeech::VerbNidanYUpper)
        } else if same(tag, "v2y-s") {
            Some(PartOfSpeech::VerbNidanYLower)
        } else if same(tag, "v2z-s") {
            Some(PartOfSpeech::VerbNidanZLower)
        } else if same(tag, "v4b") {
            Some(PartOfSpeech::VerbYodanB)
        } else if same(tag, "v4g") {
            Some(PartOfSpeech::VerbYodanG)
        } else if same(tag, "v4h") {
            Some(PartOfSpeech::VerbYodanH)
        } else if same(tag, "v4k") {
            Some(PartOfSpeech::VerbYodanK)
        } else if same(tag, "v4m") {
            Some(PartOfSpeech::VerbYodanM)
        } else if same(tag, "v4n") {
            Some(PartOfSpeech::VerbYodanN)
        } else if same(tag, "v4r") {
            Some(PartOfSpeech::VerbYodanR)
        } else if same(tag, "v4s") {
            Some(PartOfSpeech::VerbYodanS)
        } else if same(tag, "v4t") {
            Some(PartOfSpeech::VerbYodanT)
        } else if same(tag, "vi") {
            Some(PartOfSpeech::VerbIntransitive)
        } else if same(tag, "vn") {
            Some(PartOfSpeech::VerbIrregularN)
        } else if same(tag, "vr") {
            Some(PartOfSpeech::VerbIrregularR)
        } else if same(tag, "vs") {
            Some(PartOfSpeech::VerbSuru)
        } else if same(tag, "vs-c") {
            Some(PartOfSpeech::VerbSuruClassical)
        } else if same(tag, "vt") {
            Some(PartOfSpeech::VerbTransitive)
        } else if same(tag, "vz") {
            Some(PartOfSpeech::VerbZuru)
        } else {
            None
        }
    }

    /// The tag of the dictionary that names the variant.
    pub fn ident(self) -> (tag: &'static str)
        ensures
            tag@ == match self {
                PartOfSpeech::VerbIchidan => "v1"@,
                PartOfSpeech::VerbIchidanS => "v1-s"@,
                PartOfSpeech::VerbGodanU => "v5u"@,
                PartOfSpeech::VerbGodanTsu => "v5t"@,
                PartOfSpeech::VerbGodanRu => "v5r"@,
                PartOfSpeech::VerbGodanK => "v5k"@,
                PartOfSpeech::VerbGodanG => "v5g"@,
                PartOfSpeech::VerbGodanM => "v5m"@,
                PartOfSpeech::VerbGodanB => "v5b"@,
                PartOfSpeech::VerbGodanN => "v5n"@,
                PartOfSpeech::VerbGodanS => "v5s"@,
                PartOfSpeech::VerbGodanAru => "v5aru"@,
                PartOfSpeech::VerbGodanRI => "v5r-i"@,
                PartOfSpeech::VerbGodanUS => "v5u-s"@,
                PartOfSpeech::VerbGodanUru => "v5uru"@,
                PartOfSpeech::VerbGodanKS => "v5k-s"@,
                PartOfSpeech::VerbSuruSpecial => "vs-s"@,
                PartOfSpeech::VerbSuruIncluded => "vs-i"@,
                PartOfSpeech::VerbKuru => "vk"@,
                PartOfSpeech::AdjectiveI => "adj-i"@,
                PartOfSpeech::AdjectiveIx => "adj-ix"@,
                PartOfSpeech::AdjectiveNa => "adj-na"@,
                PartOfSpeech::Noun => "n"@,
                PartOfSpeech::NounAdverbial => "n-adv"@,
                PartOfSpeech::NounProper => "n-pr"@,
                PartOfSpeech::NounPrefix => "n-pref"@,
                PartOfSpeech::NounSuffix => "n-suf"@,
                PartOfSpeech::NounTemporal => "n-t"@,
                PartOfSpeech::Numeric => "num"@,
                PartOfSpeech::Pronoun => "pn"@,
                PartOfSpeech::Prefix => "pref"@,
                PartOfSpeech::Particle => "prt"@,
                PartOfSpeech::Suffix => "suf"@,
                PartOfSpeech::Unclassified => "unc"@,
                PartOfSpeech::AdjectiveF => "adj-f"@,
                PartOfSpeech::AdjectiveKari => "adj-kari"@,
                PartOfSpeech::AdjectiveKu => "adj-ku"@,
                PartOfSpeech::AdjectiveNari => "adj-nari"@,
                PartOfSpeech::AdjectiveNo => "adj-no"@,
                PartOfSpeech::AdjectivePreNoun => "adj-pn"@,
                PartOfSpeech::AdjectiveShiku => "adj-shiku"@,
                PartOfSpeech::AdjectiveTaru => "adj-t"@,
                PartOfSpeech::Adverb => "adv"@,
                PartOfSpeech::AdverbTo => "adv-to"@,
                PartOfSpeech::Auxiliary => "aux"@,
                PartOfSpeech::AuxiliaryAdjective => "aux-adj"@,
                PartOfSpeech::AuxiliaryVerb => "aux-v"@,
                PartOfSpeech::Conjunction => "conj"@,
                PartOfSpeech::Copula => "cop"@,
                PartOfSpeech::Counter => "ctr"@,
                PartOfSpeech::Expression => "exp"@,
                PartOfSpeech::Interjection => "int"@,
                PartOfSpeech::VerbUnspecified => "v-unspec"@,
                PartOfSpeech::VerbNidanALower => "v2a-s"@,
                PartOfSpeech::VerbNidanBUpper => "v2b-k"@,
                PartOfSpeech::VerbNidanBLower => "v2b-s"@,
                PartOfSpeech::VerbNidanDUpper => "v2d-k"@,
                PartOfSpeech::VerbNidanDLower => "v2d-s"@,
                PartOfSpeech::VerbNidanGUpper => "v2g-k"@,
                PartOfSpeech::VerbNidanGLower => "v2g-s"@,
                PartOfSpeech::VerbNidanHUpper => "v2h-k"@,
                PartOfSpeech::VerbNidanHLower => "v2h-s"@,
                PartOfSpeech::VerbNidanKUpper => "v2k-k"@,
                PartOfSpeech::VerbNidanKLower => "v2k-s"@,
                PartOfSpeech::VerbNidanMUpper => "v2m-k"@,
                PartOfSpeech::VerbNidanMLower => "v2m-s"@,
                PartOfSpeech::VerbNidanNLower => "v2n-s"@,
                PartOfSpeech::VerbNidanRUpper => "v2r-k"@,
                PartOfSpeech::VerbNidanRLower => "v2r-s"@,
                PartOfSpeech::VerbNidanSLower => "v2s-s"@,
                PartOfSpeech::VerbNidanTUpper => "v2t-k"@,
                PartOfSpeech::VerbNidanTLower => "v2t-s"@,
                PartOfSpeech::VerbNidanWLower => "v2w-s"@,
                PartOfSpeech::VerbNidanYUpper => "v2y-k"@,
                PartOfSpeech::VerbNidanYLower => "v2y-s"@,
                PartOfSpeech::VerbNidanZLower => "v2z-s"@,
                PartOfSpeech::VerbYodanB => "v4b"@,
                PartOfSpeech::VerbYodanG => "v4g"@,
                PartOfSpeech::VerbYodanH => "v4h"@,
                PartOfSpeech::VerbYodanK => "v4k"@,
                PartOfSpeech::VerbYodanM => "v4m"@,
                PartOfSpeech::VerbYodanN => "v4n"@,
                PartOfSpeech::VerbYodanR => "v4r"@,
                PartOfSpeech::VerbYodanS => "v4s"@,
                PartOfSpeech::VerbYodanT => "v4t"@,
                PartOfSpeech::VerbIntransitive => "vi"@,
                PartOfSpeech::VerbIrregularN => "vn"@,
                PartOfSpeech::VerbIrregularR => "vr"@,
                PartOfSpeech::VerbSuru => "vs"@,
                PartOfSpeech::VerbSuruClassical => "vs-c"@,
                PartOfSpeech::VerbTransitive => "vt"@,
                PartOfSpeech::VerbZuru => "vz"@,
            },
    {
        match self {
            PartOfSpeech::VerbIchidan => "v1",
            PartOfSpeech::VerbIchidanS => "v1-s",
            PartOfSpeech::VerbGodanU => "v5u",
            PartOfSpeech::VerbGodanTsu => "v5t",
            PartOfSpeech::VerbGodanRu => "v5r",
            PartOfSpeech::VerbGodanK => "v5k",
            PartOfSpeech::VerbGodanG => "v5g",
            PartOfSpeech::VerbGodanM => "v5m",
            PartOfSpeech::VerbGodanB => "v5b",
            PartOfSpeech::VerbGodanN => "v5n",
            PartOfSpeech::VerbGodanS => "v5s",
            PartOfSpeech::VerbGodanAru => "v5aru",
            PartOfSpeech::VerbGodanRI => "v5r-i",
            PartOfSpeech::VerbGodanUS => "v5u-s",
            PartOfSpeech::VerbGodanUru => "v5uru",
            PartOfSpeech::VerbGodanKS => "v5k-s",
            PartOfSpeech::VerbSuruSpecial => "vs-s",
            PartOfSpeech::VerbSuruIncluded => "vs-i",
            PartOfSpeech::VerbKuru => "vk",
            PartOfSpeech::AdjectiveI => "adj-i",
            PartOfSpeech::AdjectiveIx => "adj-ix",
            PartOfSpeech::AdjectiveNa => "adj-na",
            PartOfSpeech::Noun => "n",
            PartOfSpeech::NounAdverbial => "n-adv",
            PartOfSpeech::NounProper => "n-pr",
            PartOfSpeech::NounPrefix => "n-pref",
            PartOfSpeech::NounSuffix => "n-suf",
            PartOfSpeech::NounTemporal => "n-t",
            PartOfSpeech::Numeric => "num",
            PartOfSpeech::Pronoun => "pn",
            PartOfSpeech::Prefix => "pref",
            PartOfSpeech::Particle => "prt",
            PartOfSpeech::Suffix => "suf",
            PartOfSpeech::Unclassified => "unc",
            PartOfSpeech::AdjectiveF => "adj-f",
            PartOfSpeech::AdjectiveKari => "adj-kari",
            PartOfSpeech::AdjectiveKu => "adj-ku",
            PartOfSpeech::AdjectiveNari => "adj-nari",
            PartOfSpeech::AdjectiveNo => "adj-no",
            PartOfSpeech::AdjectivePreNoun => "adj-pn",
            PartOfSpeech::AdjectiveShiku => "adj-shiku",
            PartOfSpeech::AdjectiveTaru => "adj-t",
            PartOfSpeech::Adverb => "adv",
            PartOfSpeech::AdverbTo => "adv-to",
            PartOfSpeech::Auxiliary => "aux",
            PartOfSpeech::AuxiliaryAdjective => "aux-adj",
            PartOfSpeech::AuxiliaryVerb => "aux-v",
            PartOfSpeech::Conjunction => "conj",
            PartOfSpeech::Copula => "cop",
            PartOfSpeech::Counter => "ctr",
            PartOfSpeech::Expression => "exp",
            PartOfSpeech::Interjection => "int",
            PartOfSpeech::VerbUnspecified => "v-unspec",
            PartOfSpeech::VerbNidanALower => "v2a-s",
            PartOfSpeech::VerbNidanBUpper => "v2b-k",
            PartOfSpeech::VerbNidanBLower => "v2b-s",
            PartOfSpeech::VerbNidanDUpper => "v2d-k",
            PartOfSpeech::VerbNidanDLower => "v2d-s",
            PartOfSpeech::VerbNidanGUpper => "v2g-k",
            PartOfSpeech::VerbNidanGLower => "v2g-s",
            PartOfSpeech::VerbNidanHUpper => "v2h-k",
            PartOfSpeech::VerbNidanHLower => "v2h-s",
            PartOfSpeech::VerbNidanKUpper => "v2k-k",
            PartOfSpeech::VerbNidanKLower => "v2k-s",
            PartOfSpeech::VerbNidanMUpper => "v2m-k",
            PartOfSpeech::VerbNidanMLower => "v2m-s",
            PartOfSpeech::VerbNidanNLower => "v2n-s",
            PartOfSpeech::VerbNidanRUpper => "v2r-k",
            PartOfSpeech::VerbNidanRLower => "v2r-s",
            PartOfSpeech::VerbNidanSLower => "v2s-s",
            PartOfSpeech::VerbNidanTUpper => "v2t-k",
            PartOfSpeech::VerbNidanTLower => "v2t-s",
            PartOfSpeech::VerbNidanWLower => "v2w-s",
            PartOfSpeech::VerbNidanYUpper => "v2y-k",
            PartOfSpeech::VerbNidanYLower => "v2y-s",
            PartOfSpeech::VerbNidanZLower => "v2z-s",
            PartOfSpeech::VerbYodanB => "v4b",
            PartOfSpeech::VerbYodanG => "v4g",
            PartOfSpeech::VerbYodanH => "v4h",
            PartOfSpeech::VerbYodanK => "v4k",
            PartOfSpeech::VerbYodanM => "v4m",
            PartOfSpeech::VerbYodanN => "v4n",
            PartOfSpeech::VerbYodanR => "v4r",
            PartOfSpeech::VerbYodanS => "v4s",
            PartOfSpeech::VerbYodanT => "v4t",
            PartOfSpeech::VerbIntransitive => "vi",
            PartOfSpeech::VerbIrregularN => "vn",
            PartOfSpeech::VerbIrregularR => "vr",
            PartOfSpeech::VerbSuru => "vs",
            PartOfSpeech::VerbSuruClassical => "vs-c",
            PartOfSpeech::VerbTransitive => "vt",
            PartOfSpeech::VerbZuru => "vz",
        }
    }
}

/// Whether bit `index` of `bits` is set.
pub open spec fn bit_is_set(bits: u128, index: u8) -> bool {
    (bits >> (index as u128)) & 1 == 1
}

proof fn lemma_bit_set(bits: u128, i: u128, j: u128)
    requires
        i < 128,
        j < 128,
    ensures
        (((bits | (1u128 << i)) >> j) & 1 == 1) <==> (i == j || (bits >> j) & 1 == 1),
{
    assert((((bits | (1u128 << i)) >> j) & 1 == 1) <==> (i == j || (bits >> j) & 1 == 1)) by (bit_vector)
        requires
            i < 128,
            j < 128,
    ;
}

proof fn lemma_bit_union(a: u128, b: u128, j: u128)
    requires
        j < 128,
    ensures
        (((a | b) >> j) & 1 == 1) <==> ((a >> j) & 1 == 1 || (b >> j) & 1 == 1),
{
    assert((((a | b) >> j) & 1 == 1) <==> ((a >> j) & 1 == 1 || (b >> j) & 1 == 1)) by (bit_vector)
        requires
            j < 128,
    ;
}

proof fn lemma_bit_empty(j: u128)
    requires
        j < 128,
    ensures
        (0u128 >> j) & 1 == 0,
{
    assert((0u128 >> j) & 1 == 0) by (bit_vector)
        requires
            j < 128,
    ;
}

/// A set of parts of speech, one bit for each.
#[derive(Clone, Copy, Debug, PartialEq, Eq, Structural, Hash)]
pub struct PosSet {
    bits: u128,
}

impl View for PosSet {
    type V = Set<PartOfSpeech>;

    closed spec fn view(&self) -> Set<PartOfSpeech> {
        Set::new(|p: PartOfSpeech| bit_is_set(self.bits, p.ordinal()))
    }
}

impl PosSet {
    /// The members of `set` in the order of the closed list.
    pub open spec fn ordered(set: Set<PartOfSpeech>) -> Seq<PartOfSpeech> {
        Seq::new(PART_OF_SPEECH_COUNT as nat, |i: int| PartOfSpeech::at(i as u8)->0).filter(
            |p: PartOfSpeech| set.contains(p),
        )
    }

    /// The bits of the set: bit `n` stands for the part of speech at
    /// position `n` of the closed list.
    pub closed spec fn bits(self) -> u128 {
        self.bits
    }

    /// The bits of the set.
    pub fn to_bits(self) -> (bits: u128)
        ensures
            bits == self.bits(),
    {
        self.bits
    }

    /// The set of the given bits.
    pub closed spec fn of_bits(bits: u128) -> PosSet {
        PosSet { bits }
    }

    /// The set of its own bits is the set.
    pub proof fn lemma_of_bits(self)
        ensures
            PosSet::of_bits(self.bits()) == self,
    {
    }

    /// The set of the given bits.
    pub fn from_bits(bits: u128) -> (r: PosSet)
        ensures
            r == PosSet::of_bits(bits),
            r.bits() == bits,
    {
        PosSet { bits }
    }

    /// The set without members.
    pub closed spec fn none() -> PosSet {
        PosSet { bits: 0 }
    }

    /// The set with `pos` added.
    pub closed spec fn with(self, pos: PartOfSpeech) -> PosSet {
        PosSet { bits: self.bits | (1u128 << (pos.ordinal() as u128)) }
    }

    /// The members of either set.
    pub closed spec fn join(self, other: PosSet) -> PosSet {
        PosSet { bits: self.bits | other.bits }
    }

    /// The empty set.
    pub fn new() -> (r: PosSet)
        ensures
            r == PosSet::none(),
            r@ == Set::<PartOfSpeech>::empty(),
    {
        let r = PosSet { bits: 0 };
        proof {
            assert forall|p: PartOfSpeech| !r@.contains(p) by {
                lemma_bit_empty(p.ordinal() as u128);
            }
            assert(r@ =~= Set::<PartOfSpeech>::empty());
        }
        r
    }

    /// Adds one part of speech.
    pub fn insert(&mut self, pos: PartOfSpeech)
        ensures
            *final(self) == old(self).with(pos),
            final(self)@ == old(self)@.insert(pos),
    {
        let i = pos.index();
        let ghost before = self.bits;
        self.bits = self.bits | (1u128 << (i as u128));
        proof {
            assert forall|p: PartOfSpeech|
                self@.contains(p) <==> old(self)@.insert(pos).contains(p) by {
                lemma_bit_set(before, i as u128, p.ordinal() as u128);
            }
            assert(self@ =~= old(self)@.insert(pos));
        }
    }

    /// Whether `pos` is a member.
    pub fn contains(&self, pos: PartOfSpeech) -> (b: bool)
        ensures
            b == self@.contains(pos),
    {
        let i = pos.index();
        (self.bits >> (i as u128)) & 1 == 1
    }

    /// The members of either set.
    pub fn union(self, other: PosSet) -> (r: PosSet)
        ensures
            r == self.join(other),
            r@ == self@.union(other@),
    {
        let r = PosSet { bits: self.bits | other.bits };
        proof {
            assert forall|p: PartOfSpeech|
                r@.contains(p) <==> self@.union(other@).contains(p) by {
                lemma_bit_union(self.bits, other.bits, p.ordinal() as u128);
            }
            assert(r@ =~= self@.union(other@));
        }
        r
    }

    /// The members in the order of the closed list.
    pub fn to_vec(&self) -> (v: Vec<PartOfSpeech>)
        ensures
            v@ == PosSet::ordered(self@),
    {
        let mut v: Vec<PartOfSpeech> = Vec::new();
        let ghost all = Seq::new(
            PART_OF_SPEECH_COUNT as nat,
            |i: int| PartOfSpeech::at(i as u8)->0,
        );
        let ghost keep = |p: PartOfSpeech| self@.contains(p);
        let mut i: u8 = 0;
        proof {
            assert(all.take(0) =~= Seq::<PartOfSpeech>::empty());
            assert(all.take(0).filter(keep) =~= Seq::<PartOfSpeech>::empty()) by {
                reveal(Seq::filter);
            }
        }
        while i < PART_OF_SPEECH_COUNT
            invariant
                i <= PART_OF_SPEECH_COUNT,
                all == Seq::new(
                    PART_OF_SPEECH_COUNT as nat,
                    |i: int| PartOfSpeech::at(i as u8)->0,
                ),
                keep == (|p: PartOfSpeech| self@.contains(p)),
                v@ == all.take(i as int).filter(keep),
            decreases PART_OF_SPEECH_COUNT - i,
        {
            let p = PartOfSpeech::from_index(i);
            match p {
                Some(pos) => {
                    proof {
                        assert(all.take(i + 1).drop_last() =~= all.take(i as int));
                        assert(all.take(i + 1).last() == pos);
                        reveal(Seq::filter);
                    }
                    if self.contains(pos) {
                        v.push(pos);
                    }
                },
                None => {},
            }
            i = i + 1;
        }
        proof {
            assert(all.take(PART_OF_SPEECH_COUNT as int) =~= all);
        }
        v
    }
}

} // verus!
