//! Skills, the named abilities of the skills menu.
//!
//! A skill record is `|clickable:u8|name:[u8]|0|`: a flag that says whether
//! the skill is used by clicking it, the name, and a zero byte.

use crate::mul_reader::{lookup, record_count, MulReader};
use crate::text::{read_text, text_of};
use crate::wire::put_bytes;
use vstd::prelude::*;
use vstd::slice::slice_subrange;
use vstd::utf8::encode_utf8;

verus! {

/// A skill.
pub struct Skill {
    /// Whether the skill is used by clicking it.
    pub clickable: bool,
    /// The name of the skill.
    pub name: String,
}

/// The mathematical value of a [`Skill`].
pub struct SkillView {
    pub clickable: bool,
    pub name: Seq<char>,
}

impl View for Skill {
    type V = SkillView;

    open spec fn view(&self) -> SkillView {
        SkillView { clickable: self.clickable, name: self.name@ }
    }
}

/// The skill that a record holds: none where the record has fewer than two
/// bytes, or where the bytes between its first and its last are no UTF-8.
pub open spec fn parse_skill(s: Seq<u8>) -> Option<SkillView> {
    if s.len() < 2 {
        None
    } else {
        match text_of(s.subrange(1, s.len() - 1)) {
            Some(name) => Some(SkillView { clickable: s[0] == 1, name }),
            None => None,
        }
    }
}

/// The record of a skill.
pub open spec fn skill_bytes(v: SkillView) -> Seq<u8> {
    seq![if v.clickable { 1u8 } else { 0u8 }] + encode_utf8(v.name) + seq![0u8]
}

/// The skill with id `id` in a container, if the container has a record
/// with that id and the record holds a skill.
pub open spec fn skill_at(idx: Seq<u8>, data: Seq<u8>, id: u32) -> Option<SkillView> {
    match lookup(idx, data, id) {
        Ok(rec) => parse_skill(rec.data),
        Err(_) => None,
    }
}

impl Skill {
    pub fn new(clickable: bool, name: String) -> (skill: Skill)
        ensures
            skill.clickable == clickable,
            skill.name == name,
    {
        Skill { clickable, name }
    }

    /// Reads a skill out of the bytes of its record.
    pub fn decode(data: &[u8]) -> (r: Option<Skill>)
        ensures
            match r {
                Some(skill) => parse_skill(data@) == Some(skill@),
                None => parse_skill(data@) is None,
            },
    {
        let len: usize = data.len();
        if len < 2 {
            return None;
        }
        match read_text(slice_subrange(data, 1, len - 1)) {
            Some(name) => Some(Skill { clickable: data[0] == 1, name }),
            None => None,
        }
    }

    /// Converts a skill back into the bytes of its record.
    pub fn serialize(&self) -> (out: Vec<u8>)
        ensures
            out@ == skill_bytes(self@),
    {
        let mut vec: Vec<u8> = Vec::new();
        vec.push(if self.clickable {
            1
        } else {
            0
        });
        put_bytes(&mut vec, self.name.as_str().as_bytes());
        vec.push(0);
        assert(vec@ =~= skill_bytes(self@));
        vec
    }
}

/// The list of skills.
pub struct Skills {
    pub skills: Vec<Skill>,
}

impl Skills {
    /// Reads the skills of a container: those of the records 0, 1, 2 and so
    /// on, up to the first id that has no record or whose record holds no
    /// skill.
    pub fn from_mul(reader: &MulReader) -> (list: Skills)
        ensures
            list.skills@.len() <= record_count(reader.index_bytes()),
            list.skills@.len() <= u32::MAX,
            forall|i: int|
                0 <= i < list.skills@.len() ==> skill_at(
                    reader.index_bytes(),
                    reader.data_bytes(),
                    i as u32,
                ) == Some(#[trigger] list.skills@[i]@),
            list.skills@.len() < u32::MAX ==> skill_at(
                reader.index_bytes(),
                reader.data_bytes(),
                list.skills@.len() as u32,
            ) is None,
    {
        let mut result: Vec<Skill> = Vec::new();
        let mut id: u32 = 0;
        let count: usize = reader.len();
        loop
            invariant
                id == result@.len(),
                count == record_count(reader.index_bytes()),
                id <= count,
                forall|i: int|
                    0 <= i < result@.len() ==> skill_at(
                        reader.index_bytes(),
                        reader.data_bytes(),
                        i as u32,
                    ) == Some(#[trigger] result@[i]@),
            ensures
                id < u32::MAX ==> skill_at(reader.index_bytes(), reader.data_bytes(), id) is None,
            decreases count - id,
        {
            if id == u32::MAX {
                break ;
            }
            match reader.read(id) {
                Ok(record) => {
                    match Skill::decode(record.data.as_slice()) {
                        Some(skill) => {
                            result.push(skill);
                        },
                        None => {
                            break ;
                        },
                    }
                },
                Err(_) => {
                    break ;
                },
            }
            id += 1;
        }
        Skills { skills: result }
    }

    /// Reads the skills out of the bytes of an index stream and of a data
    /// stream.
    pub fn new(idx: Vec<u8>, data: Vec<u8>) -> (list: Skills)
        ensures
            list.skills@.len() <= record_count(idx@),
            forall|i: int|
                0 <= i < list.skills@.len() ==> skill_at(idx@, data@, i as u32) == Some(
                    #[trigger] list.skills@[i]@,
                ),
            list.skills@.len() < u32::MAX ==> skill_at(idx@, data@, list.skills@.len() as u32)
                is None,
    {
        let reader = MulReader::from_readables(idx, data);
        Skills::from_mul(&reader)
    }
}

} // verus!
