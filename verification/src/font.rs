//! Font features of the terminal.
use cosmic_text::FeatureTag;
use cosmic_text::FontFeatures;
use vstd::prelude::*;

verus! {

/// Declares `cosmic_text::FontFeatures`, a list of OpenType features.
#[verifier::external_type_specification]
#[verifier::external_body]
pub struct ExFontFeatures(cosmic_text::FontFeatures);

/// The features in a `cosmic_text::FontFeatures`, in their order: the four bytes
/// of their tag, and their value.
pub uninterp spec fn feature_list(features: FontFeatures) -> Seq<(Seq<u8>, u32)>;

/// Calls `cosmic_text::FontFeatures::new`, which makes an empty list.
#[verifier::external_body]
fn no_features() -> (r: FontFeatures)
    ensures
        feature_list(r) == Seq::<(Seq<u8>, u32)>::empty(),
{
    FontFeatures::new()
}

/// Calls `cosmic_text::FontFeatures::disable`, which appends a feature with the
/// value zero.
#[verifier::external_body]
fn disable_feature(features: &mut FontFeatures, tag: [u8; 4])
    ensures
        feature_list(*final(features)) == feature_list(*old(features)).push((tag@, 0)),
{
    features.disable(FeatureTag::new(&tag));
}

/// The tags of the features that form ligatures: `liga`, `clig`, `calt` and
/// `dlig`.
pub open spec fn ligature_tags() -> Seq<Seq<u8>> {
    seq![
        seq![0x6c, 0x69, 0x67, 0x61],
        seq![0x63, 0x6c, 0x69, 0x67],
        seq![0x63, 0x61, 0x6c, 0x74],
        seq![0x64, 0x6c, 0x69, 0x67],
    ]
}

/// The font features of the terminal: all that form ligatures are disabled unless
/// they are wanted. Text that runs from the right and fallback fonts are shaped
/// as usual.
pub fn font_features_for(ligatures: bool) -> (r: FontFeatures)
    ensures
        ligatures ==> feature_list(r) == Seq::<(Seq<u8>, u32)>::empty(),
        !ligatures ==> feature_list(r) == ligature_tags().map_values(|tag: Seq<u8>| (tag, 0u32)),
{
    let mut features = no_features();
    if !ligatures {
        let liga: [u8; 4] = [0x6c, 0x69, 0x67, 0x61];
        let clig: [u8; 4] = [0x63, 0x6c, 0x69, 0x67];
        let calt: [u8; 4] = [0x63, 0x61, 0x6c, 0x74];
        let dlig: [u8; 4] = [0x64, 0x6c, 0x69, 0x67];
        disable_feature(&mut features, liga);
        disable_feature(&mut features, clig);
        disable_feature(&mut features, calt);
        disable_feature(&mut features, dlig);
        proof {
            assert(liga@ == ligature_tags()[0]);
            assert(clig@ == ligature_tags()[1]);
            assert(calt@ == ligature_tags()[2]);
            assert(dlig@ == ligature_tags()[3]);
        }
    }
    features
}

/// Without ligatures, exactly these four features are switched off: standard,
/// contextual and discretionary ligatures, and contextual alternates.
pub proof fn law_ligature_features_are_these(tag: Seq<u8>)
    ensures
        ligature_tags().contains(tag) <==> {
            ||| tag == seq!['l' as u8, 'i' as u8, 'g' as u8, 'a' as u8]
            ||| tag == seq!['c' as u8, 'l' as u8, 'i' as u8, 'g' as u8]
            ||| tag == seq!['c' as u8, 'a' as u8, 'l' as u8, 't' as u8]
            ||| tag == seq!['d' as u8, 'l' as u8, 'i' as u8, 'g' as u8]
        },
        ligature_tags().len() == 4,
{
    let tags = ligature_tags();
    assert(tags[0] == seq!['l' as u8, 'i' as u8, 'g' as u8, 'a' as u8]);
    assert(tags[1] == seq!['c' as u8, 'l' as u8, 'i' as u8, 'g' as u8]);
    assert(tags[2] == seq!['c' as u8, 'a' as u8, 'l' as u8, 't' as u8]);
    assert(tags[3] == seq!['d' as u8, 'l' as u8, 'i' as u8, 'g' as u8]);
}

} // verus!
