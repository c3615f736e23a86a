use uorustlibs::mul_reader::{MulWriter, MulWriterMode};
use uorustlibs::skills::{Skill, Skills};

// The streams of a small skills container.
fn skills_streams() -> (Vec<u8>, Vec<u8>) {
    let mut writer = MulWriter::new(vec![], vec![], MulWriterMode::Truncate);
    for (clickable, name) in [(false, "Alchemy"), (false, "Anatomy"), (true, "Animal Lore")] {
        let record = Skill::new(clickable, name.to_string()).serialize();
        writer.append(&record, None, None).unwrap();
    }
    writer.into_streams()
}

#[test]
fn skills_test_load_skills() {
    let (idx, data) = skills_streams();
    let skills = Skills::new(idx, data);
    assert_eq!(skills.skills.len(), 3);
    assert_eq!(skills.skills[2].name, "Animal Lore");
    assert!(skills.skills[2].clickable);
}

#[test]
fn skills_test_serialize() {
    let in_string = "Sandwich";
    let skill = Skill::new(true, in_string.to_string()).serialize();
    assert_eq!(skill[0], 1u8);
    assert_eq!(skill[1], 'S' as u8);
    assert_eq!(skill.len(), in_string.len() + 2) //One for the clickable prefix, one for string terminal
}
