//! OCR support: the languages offered for recognition.

use vstd::prelude::*;
use vstd::string::StringExecFns;

verus! {

/// The codes of the languages offered for OCR, in order.
pub open spec fn ocr_languages() -> Seq<Seq<char>> {
    seq![
        "eng"@,
        "spa"@,
        "fra"@,
        "deu"@,
        "ita"@,
        "por"@,
        "rus"@,
        "chi_sim"@,
        "chi_tra"@,
        "jpn"@,
        "kor"@,
        "ara"@,
        "hin"@,
    ]
}

/// The languages offered for OCR.
pub fn get_ocr_languages() -> (res: Vec<String>)
    ensures
        res@.map_values(|s: String| s@) == ocr_languages(),
{
    let mut v: Vec<String> = Vec::new();
    v.push(String::from_str("eng"));
    v.push(String::from_str("spa"));
    v.push(String::from_str("fra"));
    v.push(String::from_str("deu"));
    v.push(String::from_str("ita"));
    v.push(String::from_str("por"));
    v.push(String::from_str("rus"));
    v.push(String::from_str("chi_sim"));
    v.push(String::from_str("chi_tra"));
    v.push(String::from_str("jpn"));
    v.push(String::from_str("kor"));
    v.push(String::from_str("ara"));
    v.push(String::from_str("hin"));
    assert(v@.map_values(|s: String| s@) =~= ocr_languages());
    v
}

} // verus!
