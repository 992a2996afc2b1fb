//! The pure text decisions: URL filtering, message image extraction, time
//! wording, and reaction-name confirmation.

use repost_store::text::{
    check_emote_name_for_confirmation, filter_image, image_from_message, time_since,
    u64_to_string, ConfirmationAction, EmbedInfo,
};

const SHOULD_BE_PARSED: &[&str] = &[
    "https://pbs.twimg.com/media/EwVMLkNVcAEPZ3i.jpg:large",
    "https://cdn.discordapp.com/attachments/711272231296303236/820868963335405619/lmao.png",
    "https://cdn.discordapp.com/attachments/711272231296303236/835723010555510855/rinshock.PNG",
];

#[test]
fn url_cleanup() {
    for url in SHOULD_BE_PARSED {
        assert!(filter_image(*url).is_some())
    }
}

#[test]
fn unsupported_urls_are_dropped() {
    assert!(filter_image("https://example.com/file.txt").is_none());
    assert!(filter_image("https://example.com/noextension").is_none());
    assert!(filter_image("gif").is_some());
    assert!(filter_image("x.webp").is_some());
    assert!(filter_image("x.jpeg:small").is_some());
    assert!(filter_image("x.png.txt").is_none());
}

fn embed() -> EmbedInfo {
    EmbedInfo { kind: "image".to_string(), url: None, image_url: None }
}

#[test]
fn message_image_extraction() {
    let mut url_embed = embed();
    url_embed.url = Some(SHOULD_BE_PARSED[0].to_string());
    let with_embed_only_url = (vec![url_embed], Vec::new());

    let mut image_embed = embed();
    image_embed.image_url = Some(SHOULD_BE_PARSED[0].to_string());
    let with_embed_image = (vec![image_embed], Vec::new());

    // An attachment named "wow.png" (size 483843) uploaded directly.
    let upload_attachment = (Vec::new(), vec![SHOULD_BE_PARSED[1].to_string()]);

    let cases = &[with_embed_only_url, with_embed_image, upload_attachment];

    for (embeds, attachments) in cases {
        assert!(image_from_message(embeds, attachments).is_some())
    }
}

#[test]
fn message_without_images_yields_nothing() {
    let mut plain = embed();
    plain.kind = "rich".to_string();
    plain.url = Some("https://example.com/page.html".to_string());
    let embeds = vec![plain];
    let attachments = vec!["https://example.com/notes.txt".to_string()];
    assert!(image_from_message(&embeds, &attachments).is_none());
}

const TIME_SINCE_CASES: &[(u64, &str)] = &[
    (24, "seconds"),
    (1, "second"),
    (60, "minute"),
    (322, "minutes"),
    (3900, "hour"),
    (8000, "hours"),
    (86454, "day"),
    (20030303, "days"),
];

#[test]
fn time_since_messages() {
    for (case, expected) in TIME_SINCE_CASES {
        assert_eq!(
            time_since(*case).split_whitespace().nth(1).unwrap(),
            *expected
        )
    }
}

#[test]
fn time_since_exact_wording() {
    assert_eq!(time_since(0), "0 second ago");
    assert_eq!(time_since(1), "1 second ago");
    assert_eq!(time_since(59), "59 seconds ago");
    assert_eq!(time_since(60), "1 minute ago");
    assert_eq!(time_since(3600), "1 hour ago");
    assert_eq!(time_since(86400), "1 day ago");
    assert_eq!(time_since(2 * 86400 + 5), "2 days ago");
}

#[test]
fn decimal_writing() {
    assert_eq!(u64_to_string(0), "0");
    assert_eq!(u64_to_string(7), "7");
    assert_eq!(u64_to_string(10), "10");
    assert_eq!(u64_to_string(20030303), "20030303");
    assert_eq!(u64_to_string(u64::MAX), "18446744073709551615");
}

const ACCEPT_AS_YES: &[&str] = &[
    ConfirmationAction::CONFIRMED,
    "yes",
    "Yes",
    "Yesdoit",
    "yesplease",
    "yes_yes_yes",
    "yesmam",
    "yeserp",
    "please_yes_doit",
    "wow_Yes_please",
];

const ACCEPT_AS_NO: &[&str] = &["no", "No", "NoWhywouldIwantthat"];

const IGNORED_EMOJIS: &[&str] = &["wow_nope", "wow_really_Nope"];

#[test]
fn confirmation_emojis_as_yes() {
    for name in ACCEPT_AS_YES {
        // Once for a plain unicode emote, once for a named custom emote:
        // both carry the same name.
        assert_eq!(
            check_emote_name_for_confirmation(Some(name)),
            Some(true),
            "{} wasn't accepted",
            name
        );
        assert_eq!(
            check_emote_name_for_confirmation(Some(&name.to_string())),
            Some(true),
            "{} wasn't accepted",
            name
        );
    }
}

#[test]
fn confirmation_emojis_as_no() {
    for name in ACCEPT_AS_NO {
        assert_eq!(
            check_emote_name_for_confirmation(Some(name)),
            Some(false),
            "{} wasn't accepted",
            name
        );
        assert_eq!(
            check_emote_name_for_confirmation(Some(&name.to_string())),
            Some(false),
            "{} wasn't accepted",
            name
        );
    }
}

#[test]
fn confirmation_emojis_ignored() {
    for name in IGNORED_EMOJIS {
        assert_eq!(
            check_emote_name_for_confirmation(Some(name)),
            None,
            "{} was wrongly accepted",
            name
        );
        assert_eq!(
            check_emote_name_for_confirmation(Some(&name.to_string())),
            None,
            "{} was wrongly accepted",
            name
        );
    }

    assert_eq!(
        check_emote_name_for_confirmation(None),
        None,
        "emote with no name was wrongly accepted"
    );
}

#[test]
fn cancel_mark_reads_as_no() {
    assert_eq!(
        check_emote_name_for_confirmation(Some(ConfirmationAction::CANCELED)),
        Some(false)
    );
}

#[test]
fn confirmation_question() {
    assert_eq!(
        ConfirmationAction::IgnoreImage.as_str(),
        "Do you want to ignore this image?"
    );
}
