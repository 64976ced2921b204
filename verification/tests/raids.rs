use yuh_bot::raids::{
    absence_field, absences_count, absences_title, absentees, droptimizer_endpoint, droptimizer_failure,
    droptimizer_submitted, raid_url, raids_url, token_block, upcoming_raid_fields, upcoming_raids_count,
    upcoming_raids_title, Character, Raid, Signup,
};

fn signup(name: &str, status: &str) -> Signup {
    Signup {
        character: Character {
            id: 1,
            name: name.to_string(),
            realm: "Area 52".to_string(),
            class: "Rogue".to_string(),
            role: "Melee".to_string(),
            guest: false,
        },
        status: status.to_string(),
        comment: None,
        selected: false,
        class: "Rogue".to_string(),
        role: "Melee".to_string(),
    }
}

fn raid(id: u32, date: &str, signups: Option<Vec<Signup>>) -> Raid {
    Raid {
        id,
        date: date.to_string(),
        start_time: "20:00".to_string(),
        end_time: "23:00".to_string(),
        instance: "Nerub-ar Palace".to_string(),
        optional: false,
        difficulty: "Mythic".to_string(),
        status: "Planned".to_string(),
        present_size: 20,
        total_size: 25,
        notes: None,
        selections_image: None,
        signups,
    }
}

#[test]
fn urls() {
    assert_eq!(raids_url(), "https://wowaudit.com/v1/raids?include_past=false");
    assert_eq!(raid_url(4711), "https://wowaudit.com/v1/raids/4711");
    assert_eq!(droptimizer_endpoint("g1"), "https://api.wowutils.com/v1/groups/g1/droptimizers");
}

#[test]
fn counts_and_titles() {
    assert_eq!(upcoming_raids_count(None), 4);
    assert_eq!(upcoming_raids_count(Some(8)), 8);
    assert_eq!(absences_count(None), 2);
    assert_eq!(absences_count(Some(1)), 1);
    assert_eq!(upcoming_raids_title(4), "Upcoming 4 Raids");
    assert_eq!(absences_title(2), "Upcoming Absences For the Next 2 Raids");
}

#[test]
fn raid_fields_take_the_first_count() {
    let raids = vec![raid(1, "2024-03-05", None), raid(2, "2024-03-07", None), raid(3, "2024-03-12", None)];
    let fields = upcoming_raid_fields(&raids, 2);
    assert_eq!(
        fields,
        vec![
            ("Nerub-ar Palace (Mythic)".to_string(), "Date: 2024-03-05\nTime: 20:00 - 23:00".to_string()),
            ("Nerub-ar Palace (Mythic)".to_string(), "Date: 2024-03-07\nTime: 20:00 - 23:00".to_string()),
        ]
    );
    assert_eq!(upcoming_raid_fields(&raids, 8).len(), 3);
    assert!(upcoming_raid_fields(&raids, 0).is_empty());
}

#[test]
fn absences() {
    let r = raid(1, "2024-03-05", Some(vec![signup("A", "Absent"), signup("B", "Present"), signup("C", "Absent"), signup("D", "absent")]));
    assert_eq!(absentees(&r), vec!["A".to_string(), "C".to_string()]);
    assert_eq!(absence_field(&"2024-03-05".to_string(), &r), Some(("2024-03-05".to_string(), "A, C".to_string())));
    let none = raid(2, "d", Some(vec![signup("B", "Present")]));
    assert_eq!(absence_field(&"d".to_string(), &none), None);
    assert_eq!(absence_field(&"d".to_string(), &raid(3, "d", None)), None);
}

#[test]
fn texts() {
    assert_eq!(token_block("abc"), "```plaintext\nabc\n```");
    assert_eq!(droptimizer_failure("404 Not Found", "nope"), "WowUtils API returned 404 Not Found: nope");
    assert_eq!(droptimizer_submitted("heroic-max"), "Submitted report for profile `heroic-max`.");
}
