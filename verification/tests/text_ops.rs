use crabkit::command::{Command, SubCommand};
use crabkit::text::{
    alternating, leetify, lowercase, no_command, no_spaces, short_slugify, shorten_slug, slugify,
    transmute, uppercase,
};

#[test]
fn lowercase_test() {
    assert_eq!(
        lowercase("Crabs can be found in all oceans and in fresh water.".to_string()).unwrap(),
        "crabs can be found in all oceans and in fresh water."
    );
}

#[test]
fn uppercase_test() {
    assert_eq!(
        uppercase("There are at least 7,000 species, or kinds, of crab!".to_string()).unwrap(),
        "THERE ARE AT LEAST 7,000 SPECIES, OR KINDS, OF CRAB!"
    );
}

#[test]
fn no_spaces_test() {
    assert_eq!(
        no_spaces(
            "Crabs and other crustaceans have a hard covering known as the exoskeleton."
                .to_string()
        )
        .unwrap(),
        "Crabsandothercrustaceanshaveahardcoveringknownastheexoskeleton."
    );
}

#[test]
fn slugify_test() {
    assert_eq!(
        slugify("Crabs breathe by using gills, but the gills of land crabs have developed in such a way that they act like lungs.").unwrap(),
        "crabs-breathe-by-using-gills-but-the-gills-of-land-crabs-have-developed-in-such-a-way-that-they-act-like-lungs"
    );
}

#[test]
fn text_utils_short_slugify_test() {
    assert_eq!(
        short_slugify("Crabs can be found in all oceans and in fresh water.".to_string()).unwrap(),
        "crabs-can-be"
    );
    assert_eq!(
        short_slugify(
            "Crabsandothercrustaceanshaveahard covering known as the exoskeleton.".to_string()
        )
        .unwrap(),
        "crabsandothercru"
    );
    assert_eq!(
        short_slugify(
            "Although a few baby crabs leave the egg looking like small adults, most do not."
                .to_string()
        )
        .unwrap(),
        "although-a-few"
    );
}

#[test]
fn main_short_slugify_test() {
    assert_eq!(
        short_slugify("Crabs can be found in all oceans and in fresh water.".to_string()).unwrap(),
        "crabs-can-be"
    );
    assert_eq!(
        short_slugify(
            "Crabsandothercrustaceanshaveahard covering known as the exoskeleton.".to_string()
        )
        .unwrap(),
        "crabsandothercru"
    );
    assert_eq!(
        short_slugify(
            "Although a few baby crabs leave the egg looking like small adults, most do not."
                .to_string()
        )
        .unwrap(),
        "although-a-few"
    );
}

#[test]
fn alternating_test() {
    assert_eq!(
        alternating("Some types, including the blue crab, the Dungeness crab, and the king crab, are often eaten by humans. Crabs may be sold fresh to restaurants or their meat may be canned.".to_string()).unwrap(),
        "sOmE tYpEs, InClUdInG tHe BlUe CrAb, ThE dUnGeNeSs CrAb, AnD tHe KiNg CrAb, ArE oFtEn EaTeN bY hUmAnS. cRaBs MaY bE sOlD fReSh To ReStAuRaNtS oR tHeIr MeAt MaY bE cAnNeD."
    );
}

#[test]
fn leetify_test() {
    assert_eq!(
        leetify("As the crab grows larger, it seeks a larger shell.".to_string()).unwrap(),
        "45 7H3 CR48 9R0W5 L4R93R, 17 533K5 4 L4R93R 5H3LL."
    );
}

#[test]
fn main_transmute_test() {
    assert_eq!(
        transmute(
            "Crabs can be found in all oceans and in fresh water.".to_string(),
            Command::Lowercase,
            SubCommand::NoSettings
        )
        .unwrap(),
        "crabs can be found in all oceans and in fresh water."
    );
    assert_eq!(
        transmute(
            "There are at least 7,000 species, or kinds, of crab!".to_string(),
            Command::Uppercase,
            SubCommand::NoSettings
        )
        .unwrap(),
        "THERE ARE AT LEAST 7,000 SPECIES, OR KINDS, OF CRAB!"
    );
    assert_eq!(
        transmute(
            "Crabs and other crustaceans have a hard covering known as the exoskeleton."
                .to_string(),
            Command::NoSpaces,
            SubCommand::NoSettings
        )
        .unwrap(),
        "Crabsandothercrustaceanshaveahardcoveringknownastheexoskeleton."
    );
    assert_eq!(
        transmute(
            "Crabs breathe by using gills, but the gills of land crabs have developed in such a way that they act like lungs.".to_string(),
            Command::Slugify,
            SubCommand::NoSettings
        )
        .unwrap(),
        "crabs-breathe-by-using-gills-but-the-gills-of-land-crabs-have-developed-in-such-a-way-that-they-act-like-lungs"
    );
    assert_eq!(
        transmute(
            "Tiny pea crabs may measure less than an inch (2.5 centimeters) across.".to_string(),
            Command::ShortSlugify,
            SubCommand::NoSettings
        )
        .unwrap(),
        "tiny-pea-crabs"
    );
    assert_eq!(
        transmute(
            "Some types, including the blue crab, the Dungeness crab, and the king crab, are often eaten by humans. Crabs may be sold fresh to restaurants or their meat may be canned.".to_string(),
            Command::Alternating,
            SubCommand::NoSettings
        )
        .unwrap(),
        "sOmE tYpEs, InClUdInG tHe BlUe CrAb, ThE dUnGeNeSs CrAb, AnD tHe KiNg CrAb, ArE oFtEn EaTeN bY hUmAnS. cRaBs MaY bE sOlD fReSh To ReStAuRaNtS oR tHeIr MeAt MaY bE cAnNeD."
    );
    assert_eq!(
        transmute(
            "As the crab grows larger, it seeks a larger shell.".to_string(),
            Command::Leetify,
            SubCommand::NoSettings
        )
        .unwrap(),
        "45 7H3 CR48 9R0W5 L4R93R, 17 533K5 4 L4R93R 5H3LL."
    );
    assert_eq!(
        transmute(
            "One group of crabs, the hermits, are known for their habit of taking over empty snail shells for shelter.".to_string(),
            Command::NoCommand,
            SubCommand::NoSettings
        )
        .unwrap(),
        "One group of crabs, the hermits, are known for their habit of taking over empty snail shells for shelter.🧁"
    );
}

#[test]
fn no_command_test() {
    assert_eq!(
        no_command(
            "One group of crabs, the hermits, are known for their habit of taking over empty snail shells for shelter.".to_string()
        )
        .unwrap(),
        "One group of crabs, the hermits, are known for their habit of taking over empty snail shells for shelter.🧁"
    );
}

#[test]
fn shorten_slug_keeps_short_input() {
    assert_eq!(shorten_slug("tiny-pea-crabs"), "tiny-pea");
    assert_eq!(shorten_slug("tiny-pea-crabs-m"), "tiny-pea-crabs");
    assert_eq!(shorten_slug(""), "");
    // The crop to the last dash would leave fewer than five characters, so
    // the uncropped prefix stands.
    assert_eq!(shorten_slug("abc-defghijklmnopq"), "abc-defghijklmno");
}
