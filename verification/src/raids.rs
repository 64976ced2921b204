use vstd::prelude::*;

use crate::text::{decimal, join, join_strings, push_decimal, push_str, str_eq};

verus! {

/// The list of raids that WoWAudit answers with.
pub struct Raids {
    pub raids: Vec<Raid>,
}

/// A raid as WoWAudit describes it.
pub struct Raid {
    pub id: u32,
    pub date: String,
    pub start_time: String,
    pub end_time: String,
    pub instance: String,
    pub optional: bool,
    pub difficulty: String,
    pub status: String,
    pub present_size: u32,
    pub total_size: u32,
    pub notes: Option<String>,
    pub selections_image: Option<String>,
    pub signups: Option<Vec<Signup>>,
}

/// A character's signup to a raid.
pub struct Signup {
    pub character: Character,
    pub status: String,
    pub comment: Option<String>,
    pub selected: bool,
    pub class: String,
    pub role: String,
}

/// A character of the guild.
pub struct Character {
    pub id: u32,
    pub name: String,
    pub realm: String,
    pub class: String,
    pub role: String,
    pub guest: bool,
}

/// The address of the list of upcoming raids.
pub fn raids_url() -> (s: String)
    ensures
        s@ == "https://wowaudit.com/v1/"@ + "raids?include_past=false"@,
{
    let mut s = String::new();
    push_str(&mut s, "https://wowaudit.com/v1/");
    push_str(&mut s, "raids?include_past=false");
    s
}

/// The address of one raid, with its signups.
pub fn raid_url(id: u32) -> (s: String)
    ensures
        s@ == "https://wowaudit.com/v1/"@ + "raids/"@ + decimal(id as nat),
{
    let mut s = String::new();
    push_str(&mut s, "https://wowaudit.com/v1/");
    push_str(&mut s, "raids/");
    push_decimal(&mut s, id as u64);
    s
}

/// How many raids to show: the number asked for, or 4.
pub fn upcoming_raids_count(count: Option<usize>) -> (n: usize)
    ensures
        n == match count {
            Some(c) => c,
            None => 4usize,
        },
{
    match count {
        Some(c) => c,
        None => 4,
    }
}

/// How many raids to search for absences: the number asked for, or 2.
pub fn absences_count(count: Option<usize>) -> (n: usize)
    ensures
        n == match count {
            Some(c) => c,
            None => 2usize,
        },
{
    match count {
        Some(c) => c,
        None => 2,
    }
}

/// The title of the list of upcoming raids: "Upcoming {count} Raids".
pub fn upcoming_raids_title(count: usize) -> (s: String)
    ensures
        s@ == "Upcoming "@ + decimal(count as nat) + " Raids"@,
{
    let mut s = String::new();
    push_str(&mut s, "Upcoming ");
    push_decimal(&mut s, count as u64);
    push_str(&mut s, " Raids");
    s
}

/// The title of the list of absences: "Upcoming Absences For the Next {count} Raids".
pub fn absences_title(count: usize) -> (s: String)
    ensures
        s@ == "Upcoming Absences For the Next "@ + decimal(count as nat) + " Raids"@,
{
    let mut s = String::new();
    push_str(&mut s, "Upcoming Absences For the Next ");
    push_decimal(&mut s, count as u64);
    push_str(&mut s, " Raids");
    s
}

/// The field that shows a raid: named "{instance} ({difficulty})", holding
/// "Date: {date}\nTime: {start} - {end}".
pub open spec fn raid_field(r: &Raid) -> (Seq<char>, Seq<char>) {
    (
        r.instance@ + " ("@ + r.difficulty@ + ")"@,
        "Date: "@ + r.date@ + "\nTime: "@ + r.start_time@ + " - "@ + r.end_time@,
    )
}

/// The fields that show the first `count` raids (all of them when there are fewer).
pub fn upcoming_raid_fields(raids: &Vec<Raid>, count: usize) -> (fields: Vec<(String, String)>)
    ensures
        fields@.len() == if count < raids@.len() { count as int } else { raids@.len() as int },
        forall|i: int| 0 <= i < fields@.len() ==> ((#[trigger] fields@[i]).0@, fields@[i].1@) == raid_field(&raids@[i]),
{
    let mut fields: Vec<(String, String)> = Vec::new();
    let mut i: usize = 0;
    while i < raids.len() && i < count
        invariant
            i <= raids.len(),
            i <= count,
            fields@.len() == i,
            forall|k: int| 0 <= k < i ==> ((#[trigger] fields@[k]).0@, fields@[k].1@) == raid_field(&raids@[k]),
        decreases raids.len() - i,
    {
        let r = &raids[i];
        let mut name = String::new();
        push_str(&mut name, r.instance.as_str());
        push_str(&mut name, " (");
        push_str(&mut name, r.difficulty.as_str());
        push_str(&mut name, ")");
        let mut value = String::new();
        push_str(&mut value, "Date: ");
        push_str(&mut value, r.date.as_str());
        push_str(&mut value, "\nTime: ");
        push_str(&mut value, r.start_time.as_str());
        push_str(&mut value, " - ");
        push_str(&mut value, r.end_time.as_str());
        fields.push((name, value));
        i += 1;
    }
    fields
}

/// The names of the characters signed up to `signups` as absent, in order.
pub open spec fn absent_names(signups: Seq<Signup>) -> Seq<Seq<char>>
    decreases signups.len(),
{
    if signups.len() == 0 {
        Seq::empty()
    } else {
        let prev = absent_names(signups.drop_last());
        if signups.last().status@ == "Absent"@ {
            prev.push(signups.last().character.name@)
        } else {
            prev
        }
    }
}

/// Law: the absentees of a list of signups are exactly the signups whose
/// status is "Absent" (no other status, such as "Late", counts), kept in
/// order, each by its character's name.
pub proof fn law_absentees_are_the_absent_signups(signups: Seq<Signup>)
    ensures
        absent_names(signups) == signups.filter(|x: Signup| x.status@ == "Absent"@).map_values(
            |x: Signup| x.character.name@,
        ),
    decreases signups.len(),
{
    reveal(Seq::filter);
    let pred = |x: Signup| x.status@ == "Absent"@;
    let name = |x: Signup| x.character.name@;
    if signups.len() > 0 {
        law_absentees_are_the_absent_signups(signups.drop_last());
        let f = signups.filter(pred);
        let g = signups.drop_last().filter(pred);
        assert(f == if pred(signups.last()) { g.push(signups.last()) } else { g });
        if pred(signups.last()) {
            assert(f.map_values(name) =~= g.map_values(name).push(name(signups.last())));
        }
    } else {
        assert(signups.filter(pred).map_values(name) =~= Seq::<Seq<char>>::empty());
    }
}

/// The names of the characters who signed up to a raid as absent.
pub fn absentees(raid: &Raid) -> (names: Vec<String>)
    ensures
        names@.map_values(|s: String| s@) == match raid.signups {
            Some(s) => absent_names(s@),
            None => Seq::empty(),
        },
        names@.map_values(|s: String| s@) == match raid.signups {
            Some(s) => s@.filter(|x: Signup| x.status@ == "Absent"@).map_values(|x: Signup| x.character.name@),
            None => Seq::empty(),
        },
{
    proof {
        if raid.signups is Some {
            law_absentees_are_the_absent_signups(raid.signups.unwrap()@);
        }
    }
    let mut names: Vec<String> = Vec::new();
    match &raid.signups {
        None => {
            assert(names@.map_values(|s: String| s@) =~= Seq::<Seq<char>>::empty());
        },
        Some(signups) => {
            let mut i: usize = 0;
            while i < signups.len()
                invariant
                    i <= signups.len(),
                    names@.map_values(|s: String| s@) == absent_names(signups@.take(i as int)),
                decreases signups.len() - i,
            {
                assert(signups@.take(i + 1).drop_last() =~= signups@.take(i as int));
                let s = &signups[i];
                if str_eq(s.status.as_str(), "Absent") {
                    let ghost before = names@;
                    names.push(s.character.name.clone());
                    assert(names@.map_values(|s: String| s@) =~= before.map_values(|s: String| s@).push(
                        s.character.name@,
                    ));
                }
                i += 1;
            }
            assert(signups@.take(signups.len() as int) =~= signups@);
        },
    }
    names
}

/// The field that lists the absentees of a raid held on `date`, named after
/// the date and holding their names separated by ", "; `None` when nobody is absent.
pub fn absence_field(date: &String, raid: &Raid) -> (field: Option<(String, String)>)
    ensures
        ({
            let names = match raid.signups {
                Some(s) => absent_names(s@),
                None => Seq::empty(),
            };
            if names.len() == 0 {
                field is None
            } else {
                field matches Some(f) && f.0@ == date@ && f.1@ == join(names, ", "@)
            }
        }),
{
    let names = absentees(raid);
    if names.len() == 0 {
        return None;
    }
    Some((date.clone(), join_strings(&names, ", ")))
}

/// The field that shows the personal access token of the Bart addon, in a
/// plain text code block.
pub fn token_block(token: &str) -> (s: String)
    ensures
        s@ == "```plaintext\n"@ + token@ + "\n```"@,
{
    let mut s = String::new();
    push_str(&mut s, "```plaintext\n");
    push_str(&mut s, token);
    push_str(&mut s, "\n```");
    s
}

// ---------------------------------------------------------------------------
// WowUtils droptimizer reports
// ---------------------------------------------------------------------------

/// The WowUtils address to which droptimizer reports of a group are submitted.
pub fn droptimizer_endpoint(group_id: &str) -> (s: String)
    ensures
        s@ == "https://api.wowutils.com/v1/"@ + "groups/"@ + group_id@ + "/droptimizers"@,
{
    let mut s = String::new();
    push_str(&mut s, "https://api.wowutils.com/v1/");
    push_str(&mut s, "groups/");
    push_str(&mut s, group_id);
    push_str(&mut s, "/droptimizers");
    s
}

/// The error raised when WowUtils refuses a report: "WowUtils API returned {status}: {body}".
pub fn droptimizer_failure(status: &str, body: &str) -> (s: String)
    ensures
        s@ == "WowUtils API returned "@ + status@ + ": "@ + body@,
{
    let mut s = String::new();
    push_str(&mut s, "WowUtils API returned ");
    push_str(&mut s, status);
    push_str(&mut s, ": ");
    push_str(&mut s, body);
    s
}

/// The confirmation of a submitted report: "Submitted report for profile `{key}`.".
pub fn droptimizer_submitted(profile_key: &str) -> (s: String)
    ensures
        s@ == "Submitted report for profile `"@ + profile_key@ + "`."@,
{
    let mut s = String::new();
    push_str(&mut s, "Submitted report for profile `");
    push_str(&mut s, profile_key);
    push_str(&mut s, "`.");
    s
}

} // verus!
