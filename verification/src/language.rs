//! Windows language identifiers, and the table that maps them to language
//! tags.

use crate::category::str_equal;
use vstd::prelude::*;
use vstd::std_specs::convert::FromSpecImpl;

verus! {

/// The bits of a language identifier that hold the primary language.
pub const LANG_MASK: u16 = 0x3ff;

/// Where the sub-language starts in a language identifier.
pub const SUBLANG_SHIFT: u16 = 10;

/// The number of languages in the table.
pub const NUM_LANGUAGES: usize = 454;

/// The language identifiers defined in section 2.2 of the Windows Language
/// Code Identifier (LCID) Reference, revision 16.0, each with its RFC 5646
/// language tag, by increasing identifier.
pub open spec fn language_table() -> Seq<(u16, Seq<char>)> {
    seq![
        (0x0001u16, "ar"@),
        (0x0002u16, "bg"@),
        (0x0003u16, "ca"@),
        (0x0004u16, "zh-Hans"@),
        (0x0005u16, "cs"@),
        (0x0006u16, "da"@),
        (0x0007u16, "de"@),
        (0x0008u16, "el"@),
        (0x0009u16, "en"@),
        (0x000au16, "es"@),
        (0x000bu16, "fi"@),
        (0x000cu16, "fr"@),
        (0x000du16, "he"@),
        (0x000eu16, "hu"@),
        (0x000fu16, "is"@),
        (0x0010u16, "it"@),
        (0x0011u16, "ja"@),
        (0x0012u16, "ko"@),
        (0x0013u16, "nl"@),
        (0x0014u16, "no"@),
        (0x0015u16, "pl"@),
        (0x0016u16, "pt"@),
        (0x0017u16, "rm"@),
        (0x0018u16, "ro"@),
        (0x0019u16, "ru"@),
        (0x001au16, "hr"@),
        (0x001bu16, "sk"@),
        (0x001cu16, "sq"@),
        (0x001du16, "sv"@),
        (0x001eu16, "th"@),
        (0x001fu16, "tr"@),
        (0x0020u16, "ur"@),
        (0x0021u16, "id"@),
        (0x0022u16, "uk"@),
        (0x0023u16, "be"@),
        (0x0024u16, "sl"@),
        (0x0025u16, "et"@),
        (0x0026u16, "lv"@),
        (0x0027u16, "lt"@),
        (0x0028u16, "tg"@),
        (0x0029u16, "fa"@),
        (0x002au16, "vi"@),
        (0x002bu16, "hy"@),
        (0x002cu16, "az"@),
        (0x002du16, "eu"@),
        (0x002eu16, "hsb"@),
        (0x002fu16, "mk"@),
        (0x0030u16, "st"@),
        (0x0031u16, "ts"@),
        (0x0032u16, "tn"@),
        (0x0033u16, "ve"@),
        (0x0034u16, "xh"@),
        (0x0035u16, "zu"@),
        (0x0036u16, "af"@),
        (0x0037u16, "ka"@),
        (0x0038u16, "fo"@),
        (0x0039u16, "hi"@),
        (0x003au16, "mt"@),
        (0x003bu16, "se"@),
        (0x003cu16, "ga"@),
        (0x003du16, "yi"@),
        (0x003eu16, "ms"@),
        (0x003fu16, "kk"@),
        (0x0040u16, "ky"@),
        (0x0041u16, "sw"@),
        (0x0042u16, "tk"@),
        (0x0043u16, "uz"@),
        (0x0044u16, "tt"@),
        (0x0045u16, "bn"@),
        (0x0046u16, "pa"@),
        (0x0047u16, "gu"@),
        (0x0048u16, "or"@),
        (0x0049u16, "ta"@),
        (0x004au16, "te"@),
        (0x004bu16, "kn"@),
        (0x004cu16, "ml"@),
        (0x004du16, "as"@),
        (0x004eu16, "mr"@),
        (0x004fu16, "sa"@),
        (0x0050u16, "mn"@),
        (0x0051u16, "bo"@),
        (0x0052u16, "cy"@),
        (0x0053u16, "km"@),
        (0x0054u16, "lo"@),
        (0x0055u16, "my"@),
        (0x0056u16, "gl"@),
        (0x0057u16, "kok"@),
        (0x0058u16, "mni"@),
        (0x0059u16, "sd"@),
        (0x005au16, "syr"@),
        (0x005bu16, "si"@),
        (0x005cu16, "chr"@),
        (0x005du16, "iu"@),
        (0x005eu16, "am"@),
        (0x005fu16, "tzm"@),
        (0x0060u16, "ks"@),
        (0x0061u16, "ne"@),
        (0x0062u16, "fy"@),
        (0x0063u16, "ps"@),
        (0x0064u16, "fil"@),
        (0x0065u16, "dv"@),
        (0x0066u16, "bin"@),
        (0x0067u16, "ff"@),
        (0x0068u16, "ha"@),
        (0x0069u16, "ibb"@),
        (0x006au16, "yo"@),
        (0x006bu16, "quz"@),
        (0x006cu16, "nso"@),
        (0x006du16, "ba"@),
        (0x006eu16, "lb"@),
        (0x006fu16, "kl"@),
        (0x0070u16, "ig"@),
        (0x0071u16, "kr"@),
        (0x0072u16, "om"@),
        (0x0073u16, "ti"@),
        (0x0074u16, "gn"@),
        (0x0075u16, "haw"@),
        (0x0076u16, "la"@),
        (0x0077u16, "so"@),
        (0x0078u16, "ii"@),
        (0x0079u16, "pap"@),
        (0x007au16, "arn"@),
        (0x007cu16, "moh"@),
        (0x007eu16, "br"@),
        (0x0080u16, "ug"@),
        (0x0081u16, "mi"@),
        (0x0082u16, "oc"@),
        (0x0083u16, "co"@),
        (0x0084u16, "gsw"@),
        (0x0085u16, "sah"@),
        (0x0086u16, "qut"@),
        (0x0087u16, "rw"@),
        (0x0088u16, "wo"@),
        (0x008cu16, "prs"@),
        (0x0091u16, "gd"@),
        (0x0092u16, "ku"@),
        (0x0093u16, "quc"@),
        (0x0401u16, "ar-SA"@),
        (0x0402u16, "bg-BG"@),
        (0x0403u16, "ca-ES"@),
        (0x0404u16, "zh-TW"@),
        (0x0405u16, "cs-CZ"@),
        (0x0406u16, "da-DK"@),
        (0x0407u16, "de-DE"@),
        (0x0408u16, "el-GR"@),
        (0x0409u16, "en-US"@),
        (0x040au16, "es-ES_tradnl"@),
        (0x040bu16, "fi-FI"@),
        (0x040cu16, "fr-FR"@),
        (0x040du16, "he-IL"@),
        (0x040eu16, "hu-HU"@),
        (0x040fu16, "is-IS"@),
        (0x0410u16, "it-IT"@),
        (0x0411u16, "ja-JP"@),
        (0x0412u16, "ko-KR"@),
        (0x0413u16, "nl-NL"@),
        (0x0414u16, "nb-NO"@),
        (0x0415u16, "pl-PL"@),
        (0x0416u16, "pt-BR"@),
        (0x0417u16, "rm-CH"@),
        (0x0418u16, "ro-RO"@),
        (0x0419u16, "ru-RU"@),
        (0x041au16, "hr-HR"@),
        (0x041bu16, "sk-SK"@),
        (0x041cu16, "sq-AL"@),
        (0x041du16, "sv-SE"@),
        (0x041eu16, "th-TH"@),
        (0x041fu16, "tr-TR"@),
        (0x0420u16, "ur-PK"@),
        (0x0421u16, "id-ID"@),
        (0x0422u16, "uk-UA"@),
        (0x0423u16, "be-BY"@),
        (0x0424u16, "sl-SI"@),
        (0x0425u16, "et-EE"@),
        (0x0426u16, "lv-LV"@),
        (0x0427u16, "lt-LT"@),
        (0x0428u16, "tg-Cyrl-TJ"@),
        (0x0429u16, "fa-IR"@),
        (0x042au16, "vi-VN"@),
        (0x042bu16, "hy-AM"@),
        (0x042cu16, "az-Latn-AZ"@),
        (0x042du16, "eu-ES"@),
        (0x042eu16, "hsb-DE"@),
        (0x042fu16, "mk-MK"@),
        (0x0430u16, "st-ZA"@),
        (0x0431u16, "ts-ZA"@),
        (0x0432u16, "tn-ZA"@),
        (0x0433u16, "ve-ZA"@),
        (0x0434u16, "xh-ZA"@),
        (0x0435u16, "zu-ZA"@),
        (0x0436u16, "af-ZA"@),
        (0x0437u16, "ka-GE"@),
        (0x0438u16, "fo-FO"@),
        (0x0439u16, "hi-IN"@),
        (0x043au16, "mt-MT"@),
        (0x043bu16, "se-NO"@),
        (0x043du16, "yi-001"@),
        (0x043eu16, "ms-MY"@),
        (0x043fu16, "kk-KZ"@),
        (0x0440u16, "ky-KG"@),
        (0x0441u16, "sw-KE"@),
        (0x0442u16, "tk-TM"@),
        (0x0443u16, "uz-Latn-UZ"@),
        (0x0444u16, "tt-RU"@),
        (0x0445u16, "bn-IN"@),
        (0x0446u16, "pa-IN"@),
        (0x0447u16, "gu-IN"@),
        (0x0448u16, "or-IN"@),
        (0x0449u16, "ta-IN"@),
        (0x044au16, "te-IN"@),
        (0x044bu16, "kn-IN"@),
        (0x044cu16, "ml-IN"@),
        (0x044du16, "as-IN"@),
        (0x044eu16, "mr-IN"@),
        (0x044fu16, "sa-IN"@),
        (0x0450u16, "mn-MN"@),
        (0x0451u16, "bo-CN"@),
        (0x0452u16, "cy-GB"@),
        (0x0453u16, "km-KH"@),
        (0x0454u16, "lo-LA"@),
        (0x0455u16, "my-MM"@),
        (0x0456u16, "gl-ES"@),
        (0x0457u16, "kok-IN"@),
        (0x0458u16, "mni-IN"@),
        (0x0459u16, "sd-Deva-IN"@),
        (0x045au16, "syr-SY"@),
        (0x045bu16, "si-LK"@),
        (0x045cu16, "chr-Cher-US"@),
        (0x045du16, "iu-Cans-CA"@),
        (0x045eu16, "am-ET"@),
        (0x045fu16, "tzm-Arab-MA"@),
        (0x0460u16, "ks-Arab"@),
        (0x0461u16, "ne-NP"@),
        (0x0462u16, "fy-NL"@),
        (0x0463u16, "ps-AF"@),
        (0x0464u16, "fil-PH"@),
        (0x0465u16, "dv-MV"@),
        (0x0466u16, "bin-NG"@),
        (0x0467u16, "ff-Latn-NG"@),
        (0x0468u16, "ha-Latn-NG"@),
        (0x0469u16, "ibb-NG"@),
        (0x046au16, "yo-NG"@),
        (0x046bu16, "quz-BO"@),
        (0x046cu16, "nso-ZA"@),
        (0x046du16, "ba-RU"@),
        (0x046eu16, "lb-LU"@),
        (0x046fu16, "kl-GL"@),
        (0x0470u16, "ig-NG"@),
        (0x0471u16, "kr-Latn-NG"@),
        (0x0472u16, "om-ET"@),
        (0x0473u16, "ti-ET"@),
        (0x0474u16, "gn-PY"@),
        (0x0475u16, "haw-US"@),
        (0x0476u16, "la-VA"@),
        (0x0477u16, "so-SO"@),
        (0x0478u16, "ii-CN"@),
        (0x0479u16, "pap-029"@),
        (0x047au16, "arn-CL"@),
        (0x047cu16, "moh-CA"@),
        (0x047eu16, "br-FR"@),
        (0x0480u16, "ug-CN"@),
        (0x0481u16, "mi-NZ"@),
        (0x0482u16, "oc-FR"@),
        (0x0483u16, "co-FR"@),
        (0x0484u16, "gsw-FR"@),
        (0x0485u16, "sah-RU"@),
        (0x0486u16, "qut-GT"@),
        (0x0487u16, "rw-RW"@),
        (0x0488u16, "wo-SN"@),
        (0x048cu16, "prs-AF"@),
        (0x048du16, "plt-MG"@),
        (0x048eu16, "zh-yue-HK"@),
        (0x048fu16, "tdd-Tale-CN"@),
        (0x0490u16, "khb-Talu-CN"@),
        (0x0491u16, "gd-GB"@),
        (0x0492u16, "ku-Arab-IQ"@),
        (0x0493u16, "quc-CO"@),
        (0x0501u16, "qps-ploc"@),
        (0x05feu16, "qps-ploca"@),
        (0x0801u16, "ar-IQ"@),
        (0x0803u16, "ca-ES-valencia"@),
        (0x0804u16, "zh-CN"@),
        (0x0807u16, "de-CH"@),
        (0x0809u16, "en-GB"@),
        (0x080au16, "es-MX"@),
        (0x080cu16, "fr-BE"@),
        (0x0810u16, "it-CH"@),
        (0x0811u16, "ja-Ploc-JP"@),
        (0x0813u16, "nl-BE"@),
        (0x0814u16, "nn-NO"@),
        (0x0816u16, "pt-PT"@),
        (0x0818u16, "ro-MD"@),
        (0x0819u16, "ru-MD"@),
        (0x081au16, "sr-Latn-CS"@),
        (0x081du16, "sv-FI"@),
        (0x0820u16, "ur-IN"@),
        (0x082cu16, "az-Cyrl-AZ"@),
        (0x082eu16, "dsb-DE"@),
        (0x0832u16, "tn-BW"@),
        (0x083bu16, "se-SE"@),
        (0x083cu16, "ga-IE"@),
        (0x083eu16, "ms-BN"@),
        (0x083fu16, "kk-Latn-KZ"@),
        (0x0843u16, "uz-Cyrl-UZ"@),
        (0x0845u16, "bn-BD"@),
        (0x0846u16, "pa-Arab-PK"@),
        (0x0849u16, "ta-LK"@),
        (0x0850u16, "mn-Mong-CN"@),
        (0x0851u16, "bo-BT"@),
        (0x0859u16, "sd-Arab-PK"@),
        (0x085du16, "iu-Latn-CA"@),
        (0x085fu16, "tzm-Latn-DZ"@),
        (0x0860u16, "ks-Deva-IN"@),
        (0x0861u16, "ne-IN"@),
        (0x0867u16, "ff-Latn-SN"@),
        (0x086bu16, "quz-EC"@),
        (0x0873u16, "ti-ER"@),
        (0x09ffu16, "qps-plocm"@),
        (0x0c01u16, "ar-EG"@),
        (0x0c04u16, "zh-HK"@),
        (0x0c07u16, "de-AT"@),
        (0x0c09u16, "en-AU"@),
        (0x0c0au16, "es-ES"@),
        (0x0c0cu16, "fr-CA"@),
        (0x0c1au16, "sr-Cyrl-CS"@),
        (0x0c3bu16, "se-FI"@),
        (0x0c50u16, "mn-Mong-MN"@),
        (0x0c51u16, "dz-BT"@),
        (0x0c5fu16, "tmz-MA"@),
        (0x0c6bu16, "quz-PE"@),
        (0x1001u16, "ar-LY"@),
        (0x1004u16, "zh-SG"@),
        (0x1007u16, "de-LU"@),
        (0x1009u16, "en-CA"@),
        (0x100au16, "es-GT"@),
        (0x100cu16, "fr-CH"@),
        (0x101au16, "hr-BA"@),
        (0x103bu16, "smj-NO"@),
        (0x105fu16, "tzm-Tfng-MA"@),
        (0x1401u16, "ar-DZ"@),
        (0x1404u16, "zh-MO"@),
        (0x1407u16, "de-LI"@),
        (0x1409u16, "en-NZ"@),
        (0x140au16, "es-CR"@),
        (0x140cu16, "fr-LU"@),
        (0x141au16, "bs-Latn-BA"@),
        (0x143bu16, "smj-SE"@),
        (0x1801u16, "ar-MA"@),
        (0x1809u16, "en-IE"@),
        (0x180au16, "es-PA"@),
        (0x180cu16, "fr-MC"@),
        (0x181au16, "sr-Latn-BA"@),
        (0x183bu16, "sma-NO"@),
        (0x1c01u16, "ar-TN"@),
        (0x1c09u16, "en-ZA"@),
        (0x1c0au16, "es-DO"@),
        (0x1c0cu16, "fr-029"@),
        (0x1c1au16, "sr-Cyrl-BA"@),
        (0x1c3bu16, "sma-SE"@),
        (0x2001u16, "ar-OM"@),
        (0x2009u16, "en-JM"@),
        (0x200au16, "es-VE"@),
        (0x200cu16, "fr-RE"@),
        (0x201au16, "bs-Cyrl-BA"@),
        (0x203bu16, "sms-FI"@),
        (0x2401u16, "ar-YE"@),
        (0x2409u16, "en-029"@),
        (0x240au16, "es-CO"@),
        (0x240cu16, "fr-CD"@),
        (0x241au16, "sr-Latn-RS"@),
        (0x243bu16, "smn-FI"@),
        (0x2801u16, "ar-SY"@),
        (0x2809u16, "en-BZ"@),
        (0x280au16, "es-PE"@),
        (0x280cu16, "fr-SN"@),
        (0x281au16, "sr-Cyrl-RS"@),
        (0x2c01u16, "ar-JO"@),
        (0x2c09u16, "en-TT"@),
        (0x2c0au16, "es-AR"@),
        (0x2c0cu16, "fr-CM"@),
        (0x2c1au16, "sr-Latn-ME"@),
        (0x3001u16, "ar-LB"@),
        (0x3009u16, "en-ZW"@),
        (0x300au16, "es-EC"@),
        (0x300cu16, "fr-CI"@),
        (0x301au16, "sr-Cyrl-ME"@),
        (0x3401u16, "ar-KW"@),
        (0x3409u16, "en-PH"@),
        (0x340au16, "es-CL"@),
        (0x340cu16, "fr-ML"@),
        (0x3801u16, "ar-AE"@),
        (0x3809u16, "en-ID"@),
        (0x380au16, "es-UY"@),
        (0x380cu16, "fr-MA"@),
        (0x3c01u16, "ar-BH"@),
        (0x3c09u16, "en-HK"@),
        (0x3c0au16, "es-PY"@),
        (0x3c0cu16, "fr-HT"@),
        (0x4001u16, "ar-QA"@),
        (0x4009u16, "en-IN"@),
        (0x400au16, "es-BO"@),
        (0x4401u16, "ar-Ploc-SA"@),
        (0x4409u16, "en-MY"@),
        (0x440au16, "es-SV"@),
        (0x4801u16, "ar-145"@),
        (0x4809u16, "en-SG"@),
        (0x480au16, "es-HN"@),
        (0x4c09u16, "en-AE"@),
        (0x4c0au16, "es-NI"@),
        (0x5009u16, "en-BH"@),
        (0x500au16, "es-PR"@),
        (0x5409u16, "en-EG"@),
        (0x540au16, "es-US"@),
        (0x5809u16, "en-JO"@),
        (0x580au16, "es-419"@),
        (0x5c09u16, "en-KW"@),
        (0x5c0au16, "es-CU"@),
        (0x6009u16, "en-TR"@),
        (0x6409u16, "en-YE"@),
        (0x641au16, "bs-Cyrl"@),
        (0x681au16, "bs-Latn"@),
        (0x6c1au16, "sr-Cyrl"@),
        (0x701au16, "sr-Latn"@),
        (0x703bu16, "smn"@),
        (0x742cu16, "az-Cyrl"@),
        (0x743bu16, "sms"@),
        (0x7804u16, "zh"@),
        (0x7814u16, "nn"@),
        (0x781au16, "bs"@),
        (0x782cu16, "az-Latn"@),
        (0x783bu16, "sma"@),
        (0x783fu16, "kk-Cyrl"@),
        (0x7843u16, "uz-Cyrl"@),
        (0x7850u16, "mn-Cyrl"@),
        (0x785du16, "iu-Cans"@),
        (0x785fu16, "tzm-Tfng"@),
        (0x7c04u16, "zh-Hant"@),
        (0x7c14u16, "nb"@),
        (0x7c1au16, "sr"@),
        (0x7c28u16, "tg-Cyrl"@),
        (0x7c2eu16, "dsb"@),
        (0x7c3bu16, "smj"@),
        (0x7c3fu16, "kk-Latn"@),
        (0x7c43u16, "uz-Latn"@),
        (0x7c46u16, "pa-Arab"@),
        (0x7c50u16, "mn-Mong"@),
        (0x7c59u16, "sd-Arab"@),
        (0x7c5cu16, "chr-Cher"@),
        (0x7c5du16, "iu-Latn"@),
        (0x7c5fu16, "tzm-Latn"@),
        (0x7c67u16, "ff-Latn"@),
        (0x7c68u16, "ha-Latn"@),
        (0x7c92u16, "ku-Arab"@),
        (0xe40cu16, "fr-015"@)
    ]
}

/// Returns the language table: each language identifier with its tag, by
/// increasing identifier.
#[verifier::rlimit(100)]
pub fn languages() -> (r: Vec<(u16, &'static str)>)
    ensures
        r@.map_values(|e: (u16, &'static str)| (e.0, e.1@)) == language_table(),
{
    let r = vec![
        (0x0001u16, "ar"),
        (0x0002u16, "bg"),
        (0x0003u16, "ca"),
        (0x0004u16, "zh-Hans"),
        (0x0005u16, "cs"),
        (0x0006u16, "da"),
        (0x0007u16, "de"),
        (0x0008u16, "el"),
        (0x0009u16, "en"),
        (0x000Au16, "es"),
        (0x000Bu16, "fi"),
        (0x000Cu16, "fr"),
        (0x000Du16, "he"),
        (0x000Eu16, "hu"),
        (0x000Fu16, "is"),
        (0x0010u16, "it"),
        (0x0011u16, "ja"),
        (0x0012u16, "ko"),
        (0x0013u16, "nl"),
        (0x0014u16, "no"),
        (0x0015u16, "pl"),
        (0x0016u16, "pt"),
        (0x0017u16, "rm"),
        (0x0018u16, "ro"),
        (0x0019u16, "ru"),
        (0x001Au16, "hr"),
        (0x001Bu16, "sk"),
        (0x001Cu16, "sq"),
        (0x001Du16, "sv"),
        (0x001Eu16, "th"),
        (0x001Fu16, "tr"),
        (0x0020u16, "ur"),
        (0x0021u16, "id"),
        (0x0022u16, "uk"),
        (0x0023u16, "be"),
        (0x0024u16, "sl"),
        (0x0025u16, "et"),
        (0x0026u16, "lv"),
        (0x0027u16, "lt"),
        (0x0028u16, "tg"),
        (0x0029u16, "fa"),
        (0x002Au16, "vi"),
        (0x002Bu16, "hy"),
        (0x002Cu16, "az"),
        (0x002Du16, "eu"),
        (0x002Eu16, "hsb"),
        (0x002Fu16, "mk"),
        (0x0030u16, "st"),
        (0x0031u16, "ts"),
        (0x0032u16, "tn"),
        (0x0033u16, "ve"),
        (0x0034u16, "xh"),
        (0x0035u16, "zu"),
        (0x0036u16, "af"),
        (0x0037u16, "ka"),
        (0x0038u16, "fo"),
        (0x0039u16, "hi"),
        (0x003Au16, "mt"),
        (0x003Bu16, "se"),
        (0x003Cu16, "ga"),
        (0x003Du16, "yi"),
        (0x003Eu16, "ms"),
        (0x003Fu16, "kk"),
        (0x0040u16, "ky"),
        (0x0041u16, "sw"),
        (0x0042u16, "tk"),
        (0x0043u16, "uz"),
        (0x0044u16, "tt"),
        (0x0045u16, "bn"),
        (0x0046u16, "pa"),
        (0x0047u16, "gu"),
        (0x0048u16, "or"),
        (0x0049u16, "ta"),
        (0x004Au16, "te"),
        (0x004Bu16, "kn"),
        (0x004Cu16, "ml"),
        (0x004Du16, "as"),
        (0x004Eu16, "mr"),
        (0x004Fu16, "sa"),
        (0x0050u16, "mn"),
        (0x0051u16, "bo"),
        (0x0052u16, "cy"),
        (0x0053u16, "km"),
        (0x0054u16, "lo"),
        (0x0055u16, "my"),
        (0x0056u16, "gl"),
        (0x0057u16, "kok"),
        (0x0058u16, "mni"),
        (0x0059u16, "sd"),
        (0x005Au16, "syr"),
        (0x005Bu16, "si"),
        (0x005Cu16, "chr"),
        (0x005Du16, "iu"),
        (0x005Eu16, "am"),
        (0x005Fu16, "tzm"),
        (0x0060u16, "ks"),
        (0x0061u16, "ne"),
        (0x0062u16, "fy"),
        (0x0063u16, "ps"),
        (0x0064u16, "fil"),
        (0x0065u16, "dv"),
        (0x0066u16, "bin"),
        (0x0067u16, "ff"),
        (0x0068u16, "ha"),
        (0x0069u16, "ibb"),
        (0x006Au16, "yo"),
        (0x006Bu16, "quz"),
        (0x006Cu16, "nso"),
        (0x006Du16, "ba"),
        (0x006Eu16, "lb"),
        (0x006Fu16, "kl"),
        (0x0070u16, "ig"),
        (0x0071u16, "kr"),
        (0x0072u16, "om"),
        (0x0073u16, "ti"),
        (0x0074u16, "gn"),
        (0x0075u16, "haw"),
        (0x0076u16, "la"),
        (0x0077u16, "so"),
        (0x0078u16, "ii"),
        (0x0079u16, "pap"),
        (0x007Au16, "arn"),
        (0x007Cu16, "moh"),
        (0x007Eu16, "br"),
        (0x0080u16, "ug"),
        (0x0081u16, "mi"),
        (0x0082u16, "oc"),
        (0x0083u16, "co"),
        (0x0084u16, "gsw"),
        (0x0085u16, "sah"),
        (0x0086u16, "qut"),
        (0x0087u16, "rw"),
        (0x0088u16, "wo"),
        (0x008Cu16, "prs"),
        (0x0091u16, "gd"),
        (0x0092u16, "ku"),
        (0x0093u16, "quc"),
        (0x0401u16, "ar-SA"),
        (0x0402u16, "bg-BG"),
        (0x0403u16, "ca-ES"),
        (0x0404u16, "zh-TW"),
        (0x0405u16, "cs-CZ"),
        (0x0406u16, "da-DK"),
        (0x0407u16, "de-DE"),
        (0x0408u16, "el-GR"),
        (0x0409u16, "en-US"),
        (0x040Au16, "es-ES_tradnl"),
        (0x040Bu16, "fi-FI"),
        (0x040Cu16, "fr-FR"),
        (0x040Du16, "he-IL"),
        (0x040Eu16, "hu-HU"),
        (0x040Fu16, "is-IS"),
        (0x0410u16, "it-IT"),
        (0x0411u16, "ja-JP"),
        (0x0412u16, "ko-KR"),
        (0x0413u16, "nl-NL"),
        (0x0414u16, "nb-NO"),
        (0x0415u16, "pl-PL"),
        (0x0416u16, "pt-BR"),
        (0x0417u16, "rm-CH"),
        (0x0418u16, "ro-RO"),
        (0x0419u16, "ru-RU"),
        (0x041Au16, "hr-HR"),
        (0x041Bu16, "sk-SK"),
        (0x041Cu16, "sq-AL"),
        (0x041Du16, "sv-SE"),
        (0x041Eu16, "th-TH"),
        (0x041Fu16, "tr-TR"),
        (0x0420u16, "ur-PK"),
        (0x0421u16, "id-ID"),
        (0x0422u16, "uk-UA"),
        (0x0423u16, "be-BY"),
        (0x0424u16, "sl-SI"),
        (0x0425u16, "et-EE"),
        (0x0426u16, "lv-LV"),
        (0x0427u16, "lt-LT"),
        (0x0428u16, "tg-Cyrl-TJ"),
        (0x0429u16, "fa-IR"),
        (0x042Au16, "vi-VN"),
        (0x042Bu16, "hy-AM"),
        (0x042Cu16, "az-Latn-AZ"),
        (0x042Du16, "eu-ES"),
        (0x042Eu16, "hsb-DE"),
        (0x042Fu16, "mk-MK"),
        (0x0430u16, "st-ZA"),
        (0x0431u16, "ts-ZA"),
        (0x0432u16, "tn-ZA"),
        (0x0433u16, "ve-ZA"),
        (0x0434u16, "xh-ZA"),
        (0x0435u16, "zu-ZA"),
        (0x0436u16, "af-ZA"),
        (0x0437u16, "ka-GE"),
        (0x0438u16, "fo-FO"),
        (0x0439u16, "hi-IN"),
        (0x043Au16, "mt-MT"),
        (0x043Bu16, "se-NO"),
        (0x043Du16, "yi-001"),
        (0x043Eu16, "ms-MY"),
        (0x043Fu16, "kk-KZ"),
        (0x0440u16, "ky-KG"),
        (0x0441u16, "sw-KE"),
        (0x0442u16, "tk-TM"),
        (0x0443u16, "uz-Latn-UZ"),
        (0x0444u16, "tt-RU"),
        (0x0445u16, "bn-IN"),
        (0x0446u16, "pa-IN"),
        (0x0447u16, "gu-IN"),
        (0x0448u16, "or-IN"),
        (0x0449u16, "ta-IN"),
        (0x044Au16, "te-IN"),
        (0x044Bu16, "kn-IN"),
        (0x044Cu16, "ml-IN"),
        (0x044Du16, "as-IN"),
        (0x044Eu16, "mr-IN"),
        (0x044Fu16, "sa-IN"),
        (0x0450u16, "mn-MN"),
        (0x0451u16, "bo-CN"),
        (0x0452u16, "cy-GB"),
        (0x0453u16, "km-KH"),
        (0x0454u16, "lo-LA"),
        (0x0455u16, "my-MM"),
        (0x0456u16, "gl-ES"),
        (0x0457u16, "kok-IN"),
        (0x0458u16, "mni-IN"),
        (0x0459u16, "sd-Deva-IN"),
        (0x045Au16, "syr-SY"),
        (0x045Bu16, "si-LK"),
        (0x045Cu16, "chr-Cher-US"),
        (0x045Du16, "iu-Cans-CA"),
        (0x045Eu16, "am-ET"),
        (0x045Fu16, "tzm-Arab-MA"),
        (0x0460u16, "ks-Arab"),
        (0x0461u16, "ne-NP"),
        (0x0462u16, "fy-NL"),
        (0x0463u16, "ps-AF"),
        (0x0464u16, "fil-PH"),
        (0x0465u16, "dv-MV"),
        (0x0466u16, "bin-NG"),
        (0x0467u16, "ff-Latn-NG"),
        (0x0468u16, "ha-Latn-NG"),
        (0x0469u16, "ibb-NG"),
        (0x046Au16, "yo-NG"),
        (0x046Bu16, "quz-BO"),
        (0x046Cu16, "nso-ZA"),
        (0x046Du16, "ba-RU"),
        (0x046Eu16, "lb-LU"),
        (0x046Fu16, "kl-GL"),
        (0x0470u16, "ig-NG"),
        (0x0471u16, "kr-Latn-NG"),
        (0x0472u16, "om-ET"),
        (0x0473u16, "ti-ET"),
        (0x0474u16, "gn-PY"),
        (0x0475u16, "haw-US"),
        (0x0476u16, "la-VA"),
        (0x0477u16, "so-SO"),
        (0x0478u16, "ii-CN"),
        (0x0479u16, "pap-029"),
        (0x047Au16, "arn-CL"),
        (0x047Cu16, "moh-CA"),
        (0x047Eu16, "br-FR"),
        (0x0480u16, "ug-CN"),
        (0x0481u16, "mi-NZ"),
        (0x0482u16, "oc-FR"),
        (0x0483u16, "co-FR"),
        (0x0484u16, "gsw-FR"),
        (0x0485u16, "sah-RU"),
        (0x0486u16, "qut-GT"),
        (0x0487u16, "rw-RW"),
        (0x0488u16, "wo-SN"),
        (0x048Cu16, "prs-AF"),
        (0x048Du16, "plt-MG"),
        (0x048Eu16, "zh-yue-HK"),
        (0x048Fu16, "tdd-Tale-CN"),
        (0x0490u16, "khb-Talu-CN"),
        (0x0491u16, "gd-GB"),
        (0x0492u16, "ku-Arab-IQ"),
        (0x0493u16, "quc-CO"),
        (0x0501u16, "qps-ploc"),
        (0x05FEu16, "qps-ploca"),
        (0x0801u16, "ar-IQ"),
        (0x0803u16, "ca-ES-valencia"),
        (0x0804u16, "zh-CN"),
        (0x0807u16, "de-CH"),
        (0x0809u16, "en-GB"),
        (0x080Au16, "es-MX"),
        (0x080Cu16, "fr-BE"),
        (0x0810u16, "it-CH"),
        (0x0811u16, "ja-Ploc-JP"),
        (0x0813u16, "nl-BE"),
        (0x0814u16, "nn-NO"),
        (0x0816u16, "pt-PT"),
        (0x0818u16, "ro-MD"),
        (0x0819u16, "ru-MD"),
        (0x081Au16, "sr-Latn-CS"),
        (0x081Du16, "sv-FI"),
        (0x0820u16, "ur-IN"),
        (0x082Cu16, "az-Cyrl-AZ"),
        (0x082Eu16, "dsb-DE"),
        (0x0832u16, "tn-BW"),
        (0x083Bu16, "se-SE"),
        (0x083Cu16, "ga-IE"),
        (0x083Eu16, "ms-BN"),
        (0x083Fu16, "kk-Latn-KZ"),
        (0x0843u16, "uz-Cyrl-UZ"),
        (0x0845u16, "bn-BD"),
        (0x0846u16, "pa-Arab-PK"),
        (0x0849u16, "ta-LK"),
        (0x0850u16, "mn-Mong-CN"),
        (0x0851u16, "bo-BT"),
        (0x0859u16, "sd-Arab-PK"),
        (0x085Du16, "iu-Latn-CA"),
        (0x085Fu16, "tzm-Latn-DZ"),
        (0x0860u16, "ks-Deva-IN"),
        (0x0861u16, "ne-IN"),
        (0x0867u16, "ff-Latn-SN"),
        (0x086Bu16, "quz-EC"),
        (0x0873u16, "ti-ER"),
        (0x09FFu16, "qps-plocm"),
        (0x0C01u16, "ar-EG"),
        (0x0C04u16, "zh-HK"),
        (0x0C07u16, "de-AT"),
        (0x0C09u16, "en-AU"),
        (0x0C0Au16, "es-ES"),
        (0x0C0Cu16, "fr-CA"),
        (0x0C1Au16, "sr-Cyrl-CS"),
        (0x0C3Bu16, "se-FI"),
        (0x0C50u16, "mn-Mong-MN"),
        (0x0C51u16, "dz-BT"),
        (0x0C5Fu16, "tmz-MA"),
        (0x0C6Bu16, "quz-PE"),
        (0x1001u16, "ar-LY"),
        (0x1004u16, "zh-SG"),
        (0x1007u16, "de-LU"),
        (0x1009u16, "en-CA"),
        (0x100Au16, "es-GT"),
        (0x100Cu16, "fr-CH"),
        (0x101Au16, "hr-BA"),
        (0x103Bu16, "smj-NO"),
        (0x105Fu16, "tzm-Tfng-MA"),
        (0x1401u16, "ar-DZ"),
        (0x1404u16, "zh-MO"),
        (0x1407u16, "de-LI"),
        (0x1409u16, "en-NZ"),
        (0x140Au16, "es-CR"),
        (0x140Cu16, "fr-LU"),
        (0x141Au16, "bs-Latn-BA"),
        (0x143Bu16, "smj-SE"),
        (0x1801u16, "ar-MA"),
        (0x1809u16, "en-IE"),
        (0x180Au16, "es-PA"),
        (0x180Cu16, "fr-MC"),
        (0x181Au16, "sr-Latn-BA"),
        (0x183Bu16, "sma-NO"),
        (0x1C01u16, "ar-TN"),
        (0x1C09u16, "en-ZA"),
        (0x1C0Au16, "es-DO"),
        (0x1C0Cu16, "fr-029"),
        (0x1C1Au16, "sr-Cyrl-BA"),
        (0x1C3Bu16, "sma-SE"),
        (0x2001u16, "ar-OM"),
        (0x2009u16, "en-JM"),
        (0x200Au16, "es-VE"),
        (0x200Cu16, "fr-RE"),
        (0x201Au16, "bs-Cyrl-BA"),
        (0x203Bu16, "sms-FI"),
        (0x2401u16, "ar-YE"),
        (0x2409u16, "en-029"),
        (0x240Au16, "es-CO"),
        (0x240Cu16, "fr-CD"),
        (0x241Au16, "sr-Latn-RS"),
        (0x243Bu16, "smn-FI"),
        (0x2801u16, "ar-SY"),
        (0x2809u16, "en-BZ"),
        (0x280Au16, "es-PE"),
        (0x280Cu16, "fr-SN"),
        (0x281Au16, "sr-Cyrl-RS"),
        (0x2C01u16, "ar-JO"),
        (0x2C09u16, "en-TT"),
        (0x2C0Au16, "es-AR"),
        (0x2C0Cu16, "fr-CM"),
        (0x2C1Au16, "sr-Latn-ME"),
        (0x3001u16, "ar-LB"),
        (0x3009u16, "en-ZW"),
        (0x300Au16, "es-EC"),
        (0x300Cu16, "fr-CI"),
        (0x301Au16, "sr-Cyrl-ME"),
        (0x3401u16, "ar-KW"),
        (0x3409u16, "en-PH"),
        (0x340Au16, "es-CL"),
        (0x340Cu16, "fr-ML"),
        (0x3801u16, "ar-AE"),
        (0x3809u16, "en-ID"),
        (0x380Au16, "es-UY"),
        (0x380Cu16, "fr-MA"),
        (0x3C01u16, "ar-BH"),
        (0x3C09u16, "en-HK"),
        (0x3C0Au16, "es-PY"),
        (0x3C0Cu16, "fr-HT"),
        (0x4001u16, "ar-QA"),
        (0x4009u16, "en-IN"),
        (0x400Au16, "es-BO"),
        (0x4401u16, "ar-Ploc-SA"),
        (0x4409u16, "en-MY"),
        (0x440Au16, "es-SV"),
        (0x4801u16, "ar-145"),
        (0x4809u16, "en-SG"),
        (0x480Au16, "es-HN"),
        (0x4C09u16, "en-AE"),
        (0x4C0Au16, "es-NI"),
        (0x5009u16, "en-BH"),
        (0x500Au16, "es-PR"),
        (0x5409u16, "en-EG"),
        (0x540Au16, "es-US"),
        (0x5809u16, "en-JO"),
        (0x580Au16, "es-419"),
        (0x5C09u16, "en-KW"),
        (0x5C0Au16, "es-CU"),
        (0x6009u16, "en-TR"),
        (0x6409u16, "en-YE"),
        (0x641Au16, "bs-Cyrl"),
        (0x681Au16, "bs-Latn"),
        (0x6C1Au16, "sr-Cyrl"),
        (0x701Au16, "sr-Latn"),
        (0x703Bu16, "smn"),
        (0x742Cu16, "az-Cyrl"),
        (0x743Bu16, "sms"),
        (0x7804u16, "zh"),
        (0x7814u16, "nn"),
        (0x781Au16, "bs"),
        (0x782Cu16, "az-Latn"),
        (0x783Bu16, "sma"),
        (0x783Fu16, "kk-Cyrl"),
        (0x7843u16, "uz-Cyrl"),
        (0x7850u16, "mn-Cyrl"),
        (0x785Du16, "iu-Cans"),
        (0x785Fu16, "tzm-Tfng"),
        (0x7C04u16, "zh-Hant"),
        (0x7C14u16, "nb"),
        (0x7C1Au16, "sr"),
        (0x7C28u16, "tg-Cyrl"),
        (0x7C2Eu16, "dsb"),
        (0x7C3Bu16, "smj"),
        (0x7C3Fu16, "kk-Latn"),
        (0x7C43u16, "uz-Latn"),
        (0x7C46u16, "pa-Arab"),
        (0x7C50u16, "mn-Mong"),
        (0x7C59u16, "sd-Arab"),
        (0x7C5Cu16, "chr-Cher"),
        (0x7C5Du16, "iu-Latn"),
        (0x7C5Fu16, "tzm-Latn"),
        (0x7C67u16, "ff-Latn"),
        (0x7C68u16, "ha-Latn"),
        (0x7C92u16, "ku-Arab"),
        (0xE40Cu16, "fr-015")
    ];
    assert(r@.map_values(|e: (u16, &'static str)| (e.0, e.1@)) =~= language_table());
    r
}

/// Whether entry `i` is the first of the table that satisfies `p`.
pub open spec fn is_first_entry(p: spec_fn((u16, Seq<char>)) -> bool, i: int) -> bool {
    &&& 0 <= i < language_table().len()
    &&& p(language_table()[i])
    &&& forall|k: int| 0 <= k < i ==> !p(language_table()[k])
}

/// The index of the first entry of the table that satisfies `p`, if any.
pub open spec fn first_entry(p: spec_fn((u16, Seq<char>)) -> bool) -> Option<int> {
    if exists|i: int| is_first_entry(p, i) {
        Some(choose|i: int| is_first_entry(p, i))
    } else {
        None
    }
}

/// Whether an entry of the table has the identifier.
pub open spec fn has_id(id: u16) -> spec_fn((u16, Seq<char>)) -> bool {
    |e: (u16, Seq<char>)| e.0 == id
}

/// Whether an entry of the table has the tag.
pub open spec fn has_tag(tag: Seq<char>) -> spec_fn((u16, Seq<char>)) -> bool {
    |e: (u16, Seq<char>)| e.1 == tag
}

/// The tag of a language identifier: that of its entry in the table, or
/// `und` ("undetermined") when it has none.
pub open spec fn spec_tag(id: u16) -> Seq<char> {
    match first_entry(has_id(id)) {
        Some(i) => language_table()[i].1,
        None => "und"@,
    }
}

/// The identifier of a language tag: that of its entry in the table, or
/// the neutral language (zero) when it has none.
pub open spec fn spec_id_of_tag(tag: Seq<char>) -> u16 {
    match first_entry(has_tag(tag)) {
        Some(i) => language_table()[i].0,
        None => 0,
    }
}

/// Represents a Windows language identifier: a 16-bit value that consists
/// of a primary language identifier and a sub-language identifier.
#[derive(Clone, Copy, Debug, Eq, Hash, PartialEq, Structural)]
pub struct LanguageId(u16);

impl View for LanguageId {
    type V = u16;

    closed spec fn view(&self) -> u16 {
        self.0
    }
}

/// The first entry that satisfies `p` stays the one that `first_entry`
/// finds.
proof fn lemma_first_entry(p: spec_fn((u16, Seq<char>)) -> bool, i: int)
    requires
        is_first_entry(p, i),
    ensures
        first_entry(p) == Some(i),
{
    let c = choose|k: int| is_first_entry(p, k);
    assert(is_first_entry(p, c));
    if c < i {
        assert(!p(language_table()[c]));
    } else if c > i {
        assert(!p(language_table()[i]));
    }
}

impl LanguageId {
    /// Creates a new [`LanguageId`] from a primary language identifier and a
    /// sub-language identifier.
    pub fn new(primary_language_id: u16, sub_language_id: u16) -> (r: Self)
        ensures
            r@ == primary_language_id | ((sub_language_id << 10u16) as u16),
    {
        LanguageId(primary_language_id | (sub_language_id << 10u16))
    }

    /// Creates a [`LanguageId`] from a Windows language ID.
    pub fn from_id(id: u16) -> (r: Self)
        ensures
            r@ == id,
    {
        LanguageId(id)
    }

    /// Creates a [`LanguageId`] from a Windows language code identifier
    /// (LCID), whose low 16 bits are the language ID.
    pub fn from_lcid(lcid: u32) -> (r: Self)
        ensures
            r@ == lcid as u16,
    {
        LanguageId(lcid as u16)
    }

    /// Creates a [`LanguageId`] for a given RFC 5646 language tag, or the
    /// neutral language when the tag is not in the table.
    pub fn from_tag(language_tag: &str) -> (r: Self)
        ensures
            r@ == spec_id_of_tag(language_tag@),
    {
        let table = languages();
        let ghost view = table@.map_values(|e: (u16, &'static str)| (e.0, e.1@));
        let ghost p = has_tag(language_tag@);
        let mut i: usize = 0;
        while i < table.len()
            invariant
                i <= table@.len(),
                view == table@.map_values(|e: (u16, &'static str)| (e.0, e.1@)),
                view == language_table(),
                p == has_tag(language_tag@),
                forall|k: int| 0 <= k < i ==> !p(view[k]),
            decreases table@.len() - i,
        {
            if str_equal(table[i].1, language_tag) {
                proof {
                    assert(p(view[i as int]));
                    lemma_first_entry(p, i as int);
                }
                return LanguageId(table[i].0);
            }
            i = i + 1;
        }
        proof {
            if exists|k: int| is_first_entry(p, k) {
                let k = choose|k: int| is_first_entry(p, k);
                assert(!p(view[k]));
            }
        }
        LanguageId(0)
    }

    /// Returns the raw language ID for this [`LanguageId`].
    pub fn id(&self) -> (r: u16)
        ensures
            r == self@,
    {
        self.0
    }

    /// Returns the primary language ID of this [`LanguageId`].
    pub fn primary_language_id(&self) -> (r: u16)
        ensures
            r == self@ & LANG_MASK,
    {
        self.0 & LANG_MASK
    }

    /// Returns the sub-language identifier.
    pub fn sub_language_id(&self) -> (r: u8)
        ensures
            r == (self@ >> 10u16) as u8,
    {
        (self.0 >> 10u16) as u8
    }

    /// Returns the RFC 5646 language tag for this language, or "und"
    /// (undetermined) when the language is not recognized.
    pub fn tag(&self) -> (r: &'static str)
        ensures
            r@ == spec_tag(self@),
    {
        let table = languages();
        let ghost view = table@.map_values(|e: (u16, &'static str)| (e.0, e.1@));
        let ghost p = has_id(self@);
        let mut i: usize = 0;
        while i < table.len()
            invariant
                i <= table@.len(),
                view == table@.map_values(|e: (u16, &'static str)| (e.0, e.1@)),
                view == language_table(),
                p == has_id(self@),
                forall|k: int| 0 <= k < i ==> !p(view[k]),
            decreases table@.len() - i,
        {
            if table[i].0 == self.0 {
                proof {
                    assert(p(view[i as int]));
                    lemma_first_entry(p, i as int);
                }
                return table[i].1;
            }
            i = i + 1;
        }
        proof {
            if exists|k: int| is_first_entry(p, k) {
                let k = choose|k: int| is_first_entry(p, k);
                assert(!p(view[k]));
            }
            reveal_strlit("und");
        }
        "und"
    }

    /// Returns the decimal text of the language ID (what `Display` writes).
    pub fn to_string(&self) -> (r: String)
        ensures
            r@ == crate::text::nat_text(self@ as nat),
    {
        crate::text::nat_to_string(self.0 as u64)
    }
}

impl Default for LanguageId {
    /// The neutral language.
    fn default() -> (r: Self)
        ensures
            r@ == 0,
    {
        LanguageId(0)
    }
}

impl From<u16> for LanguageId {
    fn from(code: u16) -> (r: Self) {
        LanguageId(code)
    }
}

impl FromSpecImpl<u16> for LanguageId {
    open spec fn obeys_from_spec() -> bool {
        true
    }

    closed spec fn from_spec(code: u16) -> LanguageId {
        LanguageId(code)
    }
}

impl From<LanguageId> for u16 {
    fn from(language_id: LanguageId) -> (r: Self) {
        language_id.0
    }
}

impl FromSpecImpl<LanguageId> for u16 {
    open spec fn obeys_from_spec() -> bool {
        true
    }

    open spec fn from_spec(language_id: LanguageId) -> u16 {
        language_id@
    }
}

/// Whether the identifiers of the table increase from entry `k` on.
pub open spec fn ids_increase_from(k: int) -> bool
    decreases NUM_LANGUAGES - k,
{
    if k < 0 || k >= NUM_LANGUAGES - 1 {
        true
    } else {
        language_table()[k].0 < language_table()[k + 1].0 && ids_increase_from(k + 1)
    }
}

/// The identifiers of the table increase, entry by entry.
proof fn lemma_ids_increase()
    ensures
        ids_increase_from(0),
{
    let t = language_table();
    assert(t.len() == NUM_LANGUAGES);
    assert(ids_increase_from(453));
    assert(ids_increase_from(452));
    assert(ids_increase_from(451));
    assert(ids_increase_from(450));
    assert(ids_increase_from(449));
    assert(ids_increase_from(448));
    assert(ids_increase_from(447));
    assert(ids_increase_from(446));
    assert(ids_increase_from(445));
    assert(ids_increase_from(444));
    assert(ids_increase_from(443));
    assert(ids_increase_from(442));
    assert(ids_increase_from(441));
    assert(ids_increase_from(440));
    assert(ids_increase_from(439));
    assert(ids_increase_from(438));
    assert(ids_increase_from(437));
    assert(ids_increase_from(436));
    assert(ids_increase_from(435));
    assert(ids_increase_from(434));
    assert(ids_increase_from(433));
    assert(ids_increase_from(432));
    assert(ids_increase_from(431));
    assert(ids_increase_from(430));
    assert(ids_increase_from(429));
    assert(ids_increase_from(428));
    assert(ids_increase_from(427));
    assert(ids_increase_from(426));
    assert(ids_increase_from(425));
    assert(ids_increase_from(424));
    assert(ids_increase_from(423));
    assert(ids_increase_from(422));
    assert(ids_increase_from(421));
    assert(ids_increase_from(420));
    assert(ids_increase_from(419));
    assert(ids_increase_from(418));
    assert(ids_increase_from(417));
    assert(ids_increase_from(416));
    assert(ids_increase_from(415));
    assert(ids_increase_from(414));
    assert(ids_increase_from(413));
    assert(ids_increase_from(412));
    assert(ids_increase_from(411));
    assert(ids_increase_from(410));
    assert(ids_increase_from(409));
    assert(ids_increase_from(408));
    assert(ids_increase_from(407));
    assert(ids_increase_from(406));
    assert(ids_increase_from(405));
    assert(ids_increase_from(404));
    assert(ids_increase_from(403));
    assert(ids_increase_from(402));
    assert(ids_increase_from(401));
    assert(ids_increase_from(400));
    assert(ids_increase_from(399));
    assert(ids_increase_from(398));
    assert(ids_increase_from(397));
    assert(ids_increase_from(396));
    assert(ids_increase_from(395));
    assert(ids_increase_from(394));
    assert(ids_increase_from(393));
    assert(ids_increase_from(392));
    assert(ids_increase_from(391));
    assert(ids_increase_from(390));
    assert(ids_increase_from(389));
    assert(ids_increase_from(388));
    assert(ids_increase_from(387));
    assert(ids_increase_from(386));
    assert(ids_increase_from(385));
    assert(ids_increase_from(384));
    assert(ids_increase_from(383));
    assert(ids_increase_from(382));
    assert(ids_increase_from(381));
    assert(ids_increase_from(380));
    assert(ids_increase_from(379));
    assert(ids_increase_from(378));
    assert(ids_increase_from(377));
    assert(ids_increase_from(376));
    assert(ids_increase_from(375));
    assert(ids_increase_from(374));
    assert(ids_increase_from(373));
    assert(ids_increase_from(372));
    assert(ids_increase_from(371));
    assert(ids_increase_from(370));
    assert(ids_increase_from(369));
    assert(ids_increase_from(368));
    assert(ids_increase_from(367));
    assert(ids_increase_from(366));
    assert(ids_increase_from(365));
    assert(ids_increase_from(364));
    assert(ids_increase_from(363));
    assert(ids_increase_from(362));
    assert(ids_increase_from(361));
    assert(ids_increase_from(360));
    assert(ids_increase_from(359));
    assert(ids_increase_from(358));
    assert(ids_increase_from(357));
    assert(ids_increase_from(356));
    assert(ids_increase_from(355));
    assert(ids_increase_from(354));
    assert(ids_increase_from(353));
    assert(ids_increase_from(352));
    assert(ids_increase_from(351));
    assert(ids_increase_from(350));
    assert(ids_increase_from(349));
    assert(ids_increase_from(348));
    assert(ids_increase_from(347));
    assert(ids_increase_from(346));
    assert(ids_increase_from(345));
    assert(ids_increase_from(344));
    assert(ids_increase_from(343));
    assert(ids_increase_from(342));
    assert(ids_increase_from(341));
    assert(ids_increase_from(340));
    assert(ids_increase_from(339));
    assert(ids_increase_from(338));
    assert(ids_increase_from(337));
    assert(ids_increase_from(336));
    assert(ids_increase_from(335));
    assert(ids_increase_from(334));
    assert(ids_increase_from(333));
    assert(ids_increase_from(332));
    assert(ids_increase_from(331));
    assert(ids_increase_from(330));
    assert(ids_increase_from(329));
    assert(ids_increase_from(328));
    assert(ids_increase_from(327));
    assert(ids_increase_from(326));
    assert(ids_increase_from(325));
    assert(ids_increase_from(324));
    assert(ids_increase_from(323));
    assert(ids_increase_from(322));
    assert(ids_increase_from(321));
    assert(ids_increase_from(320));
    assert(ids_increase_from(319));
    assert(ids_increase_from(318));
    assert(ids_increase_from(317));
    assert(ids_increase_from(316));
    assert(ids_increase_from(315));
    assert(ids_increase_from(314));
    assert(ids_increase_from(313));
    assert(ids_increase_from(312));
    assert(ids_increase_from(311));
    assert(ids_increase_from(310));
    assert(ids_increase_from(309));
    assert(ids_increase_from(308));
    assert(ids_increase_from(307));
    assert(ids_increase_from(306));
    assert(ids_increase_from(305));
    assert(ids_increase_from(304));
    assert(ids_increase_from(303));
    assert(ids_increase_from(302));
    assert(ids_increase_from(301));
    assert(ids_increase_from(300));
    assert(ids_increase_from(299));
    assert(ids_increase_from(298));
    assert(ids_increase_from(297));
    assert(ids_increase_from(296));
    assert(ids_increase_from(295));
    assert(ids_increase_from(294));
    assert(ids_increase_from(293));
    assert(ids_increase_from(292));
    assert(ids_increase_from(291));
    assert(ids_increase_from(290));
    assert(ids_increase_from(289));
    assert(ids_increase_from(288));
    assert(ids_increase_from(287));
    assert(ids_increase_from(286));
    assert(ids_increase_from(285));
    assert(ids_increase_from(284));
    assert(ids_increase_from(283));
    assert(ids_increase_from(282));
    assert(ids_increase_from(281));
    assert(ids_increase_from(280));
    assert(ids_increase_from(279));
    assert(ids_increase_from(278));
    assert(ids_increase_from(277));
    assert(ids_increase_from(276));
    assert(ids_increase_from(275));
    assert(ids_increase_from(274));
    assert(ids_increase_from(273));
    assert(ids_increase_from(272));
    assert(ids_increase_from(271));
    assert(ids_increase_from(270));
    assert(ids_increase_from(269));
    assert(ids_increase_from(268));
    assert(ids_increase_from(267));
    assert(ids_increase_from(266));
    assert(ids_increase_from(265));
    assert(ids_increase_from(264));
    assert(ids_increase_from(263));
    assert(ids_increase_from(262));
    assert(ids_increase_from(261));
    assert(ids_increase_from(260));
    assert(ids_increase_from(259));
    assert(ids_increase_from(258));
    assert(ids_increase_from(257));
    assert(ids_increase_from(256));
    assert(ids_increase_from(255));
    assert(ids_increase_from(254));
    assert(ids_increase_from(253));
    assert(ids_increase_from(252));
    assert(ids_increase_from(251));
    assert(ids_increase_from(250));
    assert(ids_increase_from(249));
    assert(ids_increase_from(248));
    assert(ids_increase_from(247));
    assert(ids_increase_from(246));
    assert(ids_increase_from(245));
    assert(ids_increase_from(244));
    assert(ids_increase_from(243));
    assert(ids_increase_from(242));
    assert(ids_increase_from(241));
    assert(ids_increase_from(240));
    assert(ids_increase_from(239));
    assert(ids_increase_from(238));
    assert(ids_increase_from(237));
    assert(ids_increase_from(236));
    assert(ids_increase_from(235));
    assert(ids_increase_from(234));
    assert(ids_increase_from(233));
    assert(ids_increase_from(232));
    assert(ids_increase_from(231));
    assert(ids_increase_from(230));
    assert(ids_increase_from(229));
    assert(ids_increase_from(228));
    assert(ids_increase_from(227));
    assert(ids_increase_from(226));
    assert(ids_increase_from(225));
    assert(ids_increase_from(224));
    assert(ids_increase_from(223));
    assert(ids_increase_from(222));
    assert(ids_increase_from(221));
    assert(ids_increase_from(220));
    assert(ids_increase_from(219));
    assert(ids_increase_from(218));
    assert(ids_increase_from(217));
    assert(ids_increase_from(216));
    assert(ids_increase_from(215));
    assert(ids_increase_from(214));
    assert(ids_increase_from(213));
    assert(ids_increase_from(212));
    assert(ids_increase_from(211));
    assert(ids_increase_from(210));
    assert(ids_increase_from(209));
    assert(ids_increase_from(208));
    assert(ids_increase_from(207));
    assert(ids_increase_from(206));
    assert(ids_increase_from(205));
    assert(ids_increase_from(204));
    assert(ids_increase_from(203));
    assert(ids_increase_from(202));
    assert(ids_increase_from(201));
    assert(ids_increase_from(200));
    assert(ids_increase_from(199));
    assert(ids_increase_from(198));
    assert(ids_increase_from(197));
    assert(ids_increase_from(196));
    assert(ids_increase_from(195));
    assert(ids_increase_from(194));
    assert(ids_increase_from(193));
    assert(ids_increase_from(192));
    assert(ids_increase_from(191));
    assert(ids_increase_from(190));
    assert(ids_increase_from(189));
    assert(ids_increase_from(188));
    assert(ids_increase_from(187));
    assert(ids_increase_from(186));
    assert(ids_increase_from(185));
    assert(ids_increase_from(184));
    assert(ids_increase_from(183));
    assert(ids_increase_from(182));
    assert(ids_increase_from(181));
    assert(ids_increase_from(180));
    assert(ids_increase_from(179));
    assert(ids_increase_from(178));
    assert(ids_increase_from(177));
    assert(ids_increase_from(176));
    assert(ids_increase_from(175));
    assert(ids_increase_from(174));
    assert(ids_increase_from(173));
    assert(ids_increase_from(172));
    assert(ids_increase_from(171));
    assert(ids_increase_from(170));
    assert(ids_increase_from(169));
    assert(ids_increase_from(168));
    assert(ids_increase_from(167));
    assert(ids_increase_from(166));
    assert(ids_increase_from(165));
    assert(ids_increase_from(164));
    assert(ids_increase_from(163));
    assert(ids_increase_from(162));
    assert(ids_increase_from(161));
    assert(ids_increase_from(160));
    assert(ids_increase_from(159));
    assert(ids_increase_from(158));
    assert(ids_increase_from(157));
    assert(ids_increase_from(156));
    assert(ids_increase_from(155));
    assert(ids_increase_from(154));
    assert(ids_increase_from(153));
    assert(ids_increase_from(152));
    assert(ids_increase_from(151));
    assert(ids_increase_from(150));
    assert(ids_increase_from(149));
    assert(ids_increase_from(148));
    assert(ids_increase_from(147));
    assert(ids_increase_from(146));
    assert(ids_increase_from(145));
    assert(ids_increase_from(144));
    assert(ids_increase_from(143));
    assert(ids_increase_from(142));
    assert(ids_increase_from(141));
    assert(ids_increase_from(140));
    assert(ids_increase_from(139));
    assert(ids_increase_from(138));
    assert(ids_increase_from(137));
    assert(ids_increase_from(136));
    assert(ids_increase_from(135));
    assert(ids_increase_from(134));
    assert(ids_increase_from(133));
    assert(ids_increase_from(132));
    assert(ids_increase_from(131));
    assert(ids_increase_from(130));
    assert(ids_increase_from(129));
    assert(ids_increase_from(128));
    assert(ids_increase_from(127));
    assert(ids_increase_from(126));
    assert(ids_increase_from(125));
    assert(ids_increase_from(124));
    assert(ids_increase_from(123));
    assert(ids_increase_from(122));
    assert(ids_increase_from(121));
    assert(ids_increase_from(120));
    assert(ids_increase_from(119));
    assert(ids_increase_from(118));
    assert(ids_increase_from(117));
    assert(ids_increase_from(116));
    assert(ids_increase_from(115));
    assert(ids_increase_from(114));
    assert(ids_increase_from(113));
    assert(ids_increase_from(112));
    assert(ids_increase_from(111));
    assert(ids_increase_from(110));
    assert(ids_increase_from(109));
    assert(ids_increase_from(108));
    assert(ids_increase_from(107));
    assert(ids_increase_from(106));
    assert(ids_increase_from(105));
    assert(ids_increase_from(104));
    assert(ids_increase_from(103));
    assert(ids_increase_from(102));
    assert(ids_increase_from(101));
    assert(ids_increase_from(100));
    assert(ids_increase_from(99));
    assert(ids_increase_from(98));
    assert(ids_increase_from(97));
    assert(ids_increase_from(96));
    assert(ids_increase_from(95));
    assert(ids_increase_from(94));
    assert(ids_increase_from(93));
    assert(ids_increase_from(92));
    assert(ids_increase_from(91));
    assert(ids_increase_from(90));
    assert(ids_increase_from(89));
    assert(ids_increase_from(88));
    assert(ids_increase_from(87));
    assert(ids_increase_from(86));
    assert(ids_increase_from(85));
    assert(ids_increase_from(84));
    assert(ids_increase_from(83));
    assert(ids_increase_from(82));
    assert(ids_increase_from(81));
    assert(ids_increase_from(80));
    assert(ids_increase_from(79));
    assert(ids_increase_from(78));
    assert(ids_increase_from(77));
    assert(ids_increase_from(76));
    assert(ids_increase_from(75));
    assert(ids_increase_from(74));
    assert(ids_increase_from(73));
    assert(ids_increase_from(72));
    assert(ids_increase_from(71));
    assert(ids_increase_from(70));
    assert(ids_increase_from(69));
    assert(ids_increase_from(68));
    assert(ids_increase_from(67));
    assert(ids_increase_from(66));
    assert(ids_increase_from(65));
    assert(ids_increase_from(64));
    assert(ids_increase_from(63));
    assert(ids_increase_from(62));
    assert(ids_increase_from(61));
    assert(ids_increase_from(60));
    assert(ids_increase_from(59));
    assert(ids_increase_from(58));
    assert(ids_increase_from(57));
    assert(ids_increase_from(56));
    assert(ids_increase_from(55));
    assert(ids_increase_from(54));
    assert(ids_increase_from(53));
    assert(ids_increase_from(52));
    assert(ids_increase_from(51));
    assert(ids_increase_from(50));
    assert(ids_increase_from(49));
    assert(ids_increase_from(48));
    assert(ids_increase_from(47));
    assert(ids_increase_from(46));
    assert(ids_increase_from(45));
    assert(ids_increase_from(44));
    assert(ids_increase_from(43));
    assert(ids_increase_from(42));
    assert(ids_increase_from(41));
    assert(ids_increase_from(40));
    assert(ids_increase_from(39));
    assert(ids_increase_from(38));
    assert(ids_increase_from(37));
    assert(ids_increase_from(36));
    assert(ids_increase_from(35));
    assert(ids_increase_from(34));
    assert(ids_increase_from(33));
    assert(ids_increase_from(32));
    assert(ids_increase_from(31));
    assert(ids_increase_from(30));
    assert(ids_increase_from(29));
    assert(ids_increase_from(28));
    assert(ids_increase_from(27));
    assert(ids_increase_from(26));
    assert(ids_increase_from(25));
    assert(ids_increase_from(24));
    assert(ids_increase_from(23));
    assert(ids_increase_from(22));
    assert(ids_increase_from(21));
    assert(ids_increase_from(20));
    assert(ids_increase_from(19));
    assert(ids_increase_from(18));
    assert(ids_increase_from(17));
    assert(ids_increase_from(16));
    assert(ids_increase_from(15));
    assert(ids_increase_from(14));
    assert(ids_increase_from(13));
    assert(ids_increase_from(12));
    assert(ids_increase_from(11));
    assert(ids_increase_from(10));
    assert(ids_increase_from(9));
    assert(ids_increase_from(8));
    assert(ids_increase_from(7));
    assert(ids_increase_from(6));
    assert(ids_increase_from(5));
    assert(ids_increase_from(4));
    assert(ids_increase_from(3));
    assert(ids_increase_from(2));
    assert(ids_increase_from(1));
    assert(ids_increase_from(0));
}

/// From entry `k` on, identifiers increase when they do from the start.
proof fn lemma_ids_increase_from(k: int)
    requires
        0 <= k,
    ensures
        ids_increase_from(k),
    decreases k,
{
    if k == 0 {
        lemma_ids_increase();
    } else {
        lemma_ids_increase_from(k - 1);
    }
}

/// An earlier entry of the table has a smaller identifier.
proof fn lemma_ids_ordered(i: int, j: int)
    requires
        0 <= i < j < NUM_LANGUAGES,
    ensures
        language_table()[i].0 < language_table()[j].0,
    decreases j - i,
{
    lemma_ids_increase_from(i);
    if j > i + 1 {
        lemma_ids_ordered(i + 1, j);
    }
}

/// The tag of an entry's identifier is that entry's tag: no two entries of
/// the table share an identifier.
pub proof fn lemma_tag_of_entry(i: int)
    requires
        0 <= i < NUM_LANGUAGES,
    ensures
        spec_tag(language_table()[i].0) == language_table()[i].1,
{
    let t = language_table();
    let id = t[i].0;
    let p = has_id(id);
    assert forall|k: int| 0 <= k < i implies !p(t[k]) by {
        lemma_ids_ordered(k, i);
    }
    assert(is_first_entry(p, i));
    lemma_first_entry(p, i);

}

/// A tag of the table, taken to its identifier and back, gives the same
/// tag.
pub proof fn lemma_tag_round_trip(tag: Seq<char>)
    requires
        exists|i: int| 0 <= i < NUM_LANGUAGES && language_table()[i].1 == tag,
    ensures
        spec_tag(spec_id_of_tag(tag)) == tag,
{
    let t = language_table();
    let w = choose|i: int| 0 <= i < NUM_LANGUAGES && t[i].1 == tag;
    let p = has_tag(tag);
    lemma_first_of_table(p, w);
    let i = choose|i: int| is_first_entry(p, i);
    lemma_first_entry(p, i);

    lemma_tag_of_entry(i);
}

/// An entry that satisfies `p` has a first one before or at it.
proof fn lemma_first_of_table(p: spec_fn((u16, Seq<char>)) -> bool, k: int)
    requires
        0 <= k < language_table().len(),
        p(language_table()[k]),
    ensures
        exists|i: int| is_first_entry(p, i),
    decreases k,
{
    if exists|j: int| 0 <= j < k && p(language_table()[j]) {
        let j = choose|j: int| 0 <= j < k && p(language_table()[j]);
        lemma_first_of_table(p, j);
    } else {
        assert(is_first_entry(p, k));
    }
}

} // verus!
