use poise::serenity_prelude::Permissions;
use yuh_bot::checks::{check_is_moderator, check_is_raider, is_some_role};
use yuh_bot::clips::{has_video, needs_recheck, removal_notice, should_delete, MessageMedia};
use yuh_bot::officer_channels::{
    already_has_channel, channel_name_for, has_trial_or_raider_role, plan_personal_channel, topic_marker_for,
    wants_personal_channel, ChannelSummary, MemberInfo, Overwrite, OverwriteTarget,
};

fn media(types: &[Option<&str>], embeds: &[bool]) -> MessageMedia {
    MessageMedia {
        attachment_types: types.iter().map(|t| t.map(|s| s.to_string())).collect(),
        embed_has_video: embeds.to_vec(),
    }
}

#[test]
fn video_detection() {
    assert!(has_video(&media(&[Some("video/mp4")], &[])));
    assert!(has_video(&media(&[None, Some("image/png")], &[false, true])));
    assert!(!has_video(&media(&[Some("image/png"), None, Some("vide")], &[false])));
    assert!(!has_video(&media(&[], &[])));
}

#[test]
fn clip_decisions() {
    let plain = media(&[Some("image/png")], &[]);
    let video = media(&[Some("video/webm")], &[]);
    assert!(needs_recheck(false, 5, &vec![4, 5], &plain));
    assert!(!needs_recheck(true, 5, &vec![5], &plain));
    assert!(!needs_recheck(false, 6, &vec![5], &plain));
    assert!(!needs_recheck(false, 5, &vec![5], &video));
    assert!(should_delete(&plain));
    assert!(!should_delete(&video));
}

#[test]
fn removal_notice_text() {
    assert_eq!(
        removal_notice(123),
        "Your message in <#123> was removed because it didn't include a video or clip. That channel only allows messages with a video attachment or a video link (e.g. YouTube, Streamable, Twitch clip)."
    );
}

#[test]
fn role_checks() {
    assert!(is_some_role(&Some(vec![1, 2]), 2));
    assert!(!is_some_role(&Some(vec![1, 2]), 3));
    assert!(!is_some_role(&None, 3));
    let ok = check_is_moderator(&Some(vec![9]), 9);
    assert!(ok.allowed);
    assert_eq!(ok.reply, None);
    let no = check_is_moderator(&None, 9);
    assert!(!no.allowed);
    assert_eq!(no.reply.as_deref(), Some("This command is only available to moderators."));
    let no = check_is_raider(&Some(vec![1]), 9);
    assert_eq!(no.reply.as_deref(), Some("This command is only available to raiders."));
    assert!(check_is_raider(&Some(vec![9]), 9).allowed);
}

#[test]
fn channel_names() {
    assert_eq!(channel_name_for("Kail-Area52"), "kail-area52");
    assert_eq!(channel_name_for("  --Big Boss!!  "), "big-boss");
    assert_eq!(channel_name_for("!!!"), "member");
    assert_eq!(channel_name_for(""), "member");
    assert_eq!(channel_name_for("Ünïcode Nâme"), "n-code-n-me");
    // The Kelvin sign lowercases to an ASCII k.
    assert_eq!(channel_name_for("\u{212A}ail"), "kail");
    for display in ["ABC xyz", "Ünïcode Nâme", "\u{212A}AIL", "İstanbul", "ΣΑΣ", "-", "a--b"] {
        let name = channel_name_for(display);
        assert!(!name.is_empty());
        assert!(name.chars().all(|c| c.is_ascii_lowercase() || c.is_ascii_digit() || c == '-'), "{:?}", name);
        assert!(!name.starts_with('-') && !name.ends_with('-'), "{:?}", name);
    }
}

#[test]
fn personal_channel_decisions() {
    assert!(has_trial_or_raider_role(&vec![3, 7], 7, 8));
    assert!(!has_trial_or_raider_role(&vec![3], 7, 8));
    assert!(wants_personal_channel(&vec![8], 7, 8, 1));
    assert!(!wants_personal_channel(&vec![8, 1], 7, 8, 1));
    assert!(!wants_personal_channel(&vec![2], 7, 8, 1));
    assert_eq!(topic_marker_for(42), "Personal officer channel for <@42>");
}

fn member(nick: Option<&str>) -> MemberInfo {
    MemberInfo { user_id: 42, user_name: "Raider Joe".to_string(), nick: nick.map(|n| n.to_string()), roles: vec![8] }
}

#[test]
fn existing_channel_is_recognized() {
    let channels = vec![
        ChannelSummary { parent_id: Some(100), overwrite_targets: vec![OverwriteTarget::Member(42)] },
        ChannelSummary {
            parent_id: Some(100),
            overwrite_targets: vec![OverwriteTarget::Role(1), OverwriteTarget::Member(42)],
        },
    ];
    assert!(already_has_channel(&channels, 100, 42, 1));
    assert!(!already_has_channel(&channels, 101, 42, 1));
    assert!(!already_has_channel(&channels, 100, 43, 1));
    assert!(plan_personal_channel(&member(None), &channels, 100, 1, 999).is_none());
}

#[test]
fn plan_for_new_member() {
    let plan = plan_personal_channel(&member(Some("JoeTheRogue")), &vec![], 100, 1, 999).unwrap();
    assert_eq!(plan.name, "joetherogue");
    assert_eq!(plan.category, 100);
    assert_eq!(plan.topic, "Personal officer channel for <@42> \u{2014} visible only to them and officers.");
    let view = Permissions::VIEW_CHANNEL.bits();
    let open = (Permissions::VIEW_CHANNEL | Permissions::SEND_MESSAGES | Permissions::READ_MESSAGE_HISTORY).bits();
    assert_eq!(open, (1 << 10) | (1 << 11) | (1 << 16));
    assert_eq!(
        plan.overwrites,
        vec![
            Overwrite { target: OverwriteTarget::Role(999), allow: 0, deny: view },
            Overwrite { target: OverwriteTarget::Role(1), allow: open, deny: 0 },
            Overwrite { target: OverwriteTarget::Member(42), allow: open, deny: 0 },
        ]
    );
    let plan = plan_personal_channel(&member(None), &vec![], 100, 1, 999).unwrap();
    assert_eq!(plan.name, "raider-joe");
    // A channel made from the plan is recognized afterwards.
    let made = ChannelSummary {
        parent_id: Some(plan.category),
        overwrite_targets: plan.overwrites.iter().map(|o| o.target).collect(),
    };
    assert!(plan_personal_channel(&member(None), &vec![made], 100, 1, 999).is_none());
}
