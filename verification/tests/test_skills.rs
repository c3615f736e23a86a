use uorustlibs::mul_reader::simple_from_vecs;
use uorustlibs::skills::{Skill, Skills};

#[test]
fn test_skills_test_load_skills() {
    let mul_reader = simple_from_vecs(
        vec![
            vec![
                1, 'S' as u8, 'a' as u8, 'n' as u8, 'd' as u8, 'w' as u8, 'i' as u8, 'c' as u8,
                'h' as u8, 0,
            ],
            vec![0, 'B' as u8, 'u' as u8, 'r' as u8, 'g' as u8, 'e' as u8, 'r' as u8, 0],
        ],
        0,
        0,
    );

    let skills = Skills::from_mul(&mul_reader);
    assert_eq!(skills.skills.len(), 2);
    let ref skill = skills.skills[0];
    assert_eq!(skill.clickable, true);
    assert_eq!(&skill.name, "Sandwich");
    let ref skill = skills.skills[1];
    assert_eq!(skill.clickable, false);
    assert_eq!(&skill.name, "Burger");
}

#[test]
fn test_skills_test_serialize() {
    let in_string = "Sandwich";
    let skill = Skill::new(true, in_string.to_string()).serialize();
    assert_eq!(skill[0], 1u8);
    assert_eq!(skill[1], 'S' as u8);
    assert_eq!(skill.len(), in_string.len() + 2) //One for the clickable prefix, one for string terminal
}

#[test]
fn skill_record_round_trips() {
    let skill = Skill::new(false, "Caf\u{e9} \u{4e16}".to_string());
    let bytes = skill.serialize();
    assert_eq!(bytes, vec![0, b'C', b'a', b'f', 0xC3, 0xA9, b' ', 0xE4, 0xB8, 0x96, 0]);
    let back = Skill::decode(&bytes).unwrap();
    assert_eq!(back.clickable, false);
    assert_eq!(back.name, "Caf\u{e9} \u{4e16}");
}

#[test]
fn skill_record_that_holds_no_skill() {
    assert!(Skill::decode(&[]).is_none());
    assert!(Skill::decode(&[1]).is_none());
    assert!(Skill::decode(&[1, 0xFF, 0]).is_none());
    assert!(Skill::decode(&[1, 0xC3, 0]).is_none());
    let empty = Skill::decode(&[1, 0]).unwrap();
    assert_eq!((empty.clickable, empty.name.as_str()), (true, ""));
    // Only a first byte of 1 says that the skill is clicked.
    let other = Skill::decode(&[2, b'a', 0]).unwrap();
    assert_eq!((other.clickable, other.name.as_str()), (false, "a"));
    // The last byte is dropped whatever it is.
    let last = Skill::decode(&[1, b'a', b'b']).unwrap();
    assert_eq!(last.name, "a");
}

#[test]
fn skills_end_at_the_first_record_that_holds_none() {
    let reader = simple_from_vecs(
        vec![vec![1, b'a', 0], vec![0, b'b', 0], vec![7], vec![1, b'c', 0]],
        0,
        0,
    );
    let skills = Skills::from_mul(&reader);
    assert_eq!(skills.skills.len(), 2);
    assert_eq!(skills.skills[1].name, "b");
    let none = Skills::from_mul(&simple_from_vecs(vec![], 0, 0));
    assert!(none.skills.is_empty());
}
