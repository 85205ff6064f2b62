use guild_uptime::{
    account_lookup, best_contests, contest_line, crop_emoji, escape_markdown, link_ids,
    message_link, missing_tag_message, parse_color_code, parse_u64, remove_mention_marks,
    socials_from_response, tag_list_text, trim_white_space, AccountLookup, Contest, CtxError,
    LinkCheckError, Links, SocialsError, TagDb,
};

fn s(text: &str) -> String {
    text.to_string()
}

#[test]
fn identifier_by_length_or_discord_id() {
    assert!(matches!(account_lookup("Notch"), AccountLookup::ByName(n) if n == "Notch"));
    assert!(matches!(account_lookup(""), AccountLookup::ByName(n) if n.is_empty()));
    let uuid = "069a79f444e94726a5befca90e38aaf5";
    assert!(matches!(account_lookup(uuid), AccountLookup::ByUuid(u) if u == uuid));
    assert!(matches!(
        account_lookup("<@123456789012345678>"),
        AccountLookup::ByDiscordId(d) if d == "123456789012345678"
    ));
    assert!(matches!(
        account_lookup("  123456789012345678  "),
        AccountLookup::ByDiscordId(d) if d == "123456789012345678"
    ));
    assert!(matches!(account_lookup("this is not a player name"), AccountLookup::Invalid));
    assert!(matches!(account_lookup("99999999999999999999999"), AccountLookup::Invalid));
}

#[test]
fn u64_text_matches_std_parse() {
    for t in ["", "+", "0", "+42", "-1", "18446744073709551615", "18446744073709551616", "1a", " 1"] {
        assert_eq!(parse_u64(t), t.parse::<u64>().ok(), "{t}");
    }
}

#[test]
fn trimming_matches_std_trim() {
    for t in ["  a b  ", "\t\n x\r", "\u{3000}y\u{2003}", "\u{a0}\u{85}z\u{200b}", "", "   "] {
        assert_eq!(trim_white_space(t), t.trim(), "{t:?}");
    }
    assert_eq!(remove_mention_marks("<@!12>"), "!12");
}

#[test]
fn color_codes_need_six_hex_digits() {
    let (v, stored) = parse_color_code("#a1B2c3").unwrap();
    assert_eq!(v, 0xa1b2c3);
    assert_eq!(stored, "0xa1B2c3");
    assert_eq!(parse_color_code("##ff00#00").map(|c| c.0), Some(0xff0000));
    assert!(parse_color_code("fff").is_none());
    assert!(parse_color_code("gggggg").is_none());
    assert!(parse_color_code("1234567").is_none());
    assert!(parse_color_code("+12345").is_none());
}

#[test]
fn discord_link_is_checked() {
    let mut links = Links::empty();
    assert!(matches!(links.is_linked_to(&s("me")), Err(LinkCheckError::NoDiscordLink)));
    links.discord = Some(s("me"));
    assert!(matches!(links.is_linked_to(&s("me")), Ok(true)));
    assert!(matches!(links.is_linked_to(&s("you")), Ok(false)));
}

#[test]
fn socials_answer_is_read() {
    assert!(matches!(
        socials_from_response(false, Some(s("Invalid API key")), None),
        Err(SocialsError::Api(c)) if c == "Invalid API key"
    ));
    assert!(matches!(socials_from_response(false, None, None), Err(SocialsError::Unknown)));
    let l = socials_from_response(true, None, None).ok().unwrap();
    assert!(l.discord.is_none() && l.twitter.is_none());
    let mut given = Links::empty();
    given.youtube = Some(s("yt"));
    let l = socials_from_response(true, None, Some(given)).ok().unwrap();
    assert_eq!(l.youtube, Some(s("yt")));
}

#[test]
fn tag_texts() {
    let db = TagDb::new();
    assert_eq!(db.table_name(1234), "tags_1234");
    assert_eq!(db.table_name(0), "tags_0");
    assert_eq!(escape_markdown("a*b_`c`|<d>#~"), "a\\*b\\_\\`c\\`\\|\\<d\\>\\#\\~");
    assert_eq!(escape_markdown("plain"), "plain");
    assert_eq!(missing_tag_message("x`y"), "\u{274c} Tag `x\\`y` does not exist");
    assert_eq!(tag_list_text(&vec![]), "No tags found. Try creating a tag with `/tag create`");
    assert_eq!(tag_list_text(&vec![s("a"), s("b"), s("c")]), "a, b, c");
    assert_eq!(CtxError::NotGuild().message(), "Not in Server");
    assert_eq!(CtxError::Discord(s("boom")).message(), "boom");
}

#[test]
fn best_contest_per_crop() {
    let c = |crop: &str, timestamp: i64, collected: i64| Contest { crop: s(crop), timestamp, collected };
    let best = best_contests(&vec![
        c("Wheat", 1, 100),
        c("Carrot", 2, 50),
        c("Wheat", 3, 300),
        c("Wheat", 4, 300),
        c("Carrot", 5, 10),
    ]);
    assert_eq!(best.len(), 2);
    assert_eq!((best[0].crop.as_str(), best[0].collected, best[0].timestamp), ("Wheat", 300, 3));
    assert_eq!((best[1].crop.as_str(), best[1].collected, best[1].timestamp), ("Carrot", 50, 2));
    assert!(best_contests(&vec![]).is_empty());
}

#[test]
fn contest_line_has_commas() {
    let b = guild_uptime::BestContest { crop: s("Wheat"), collected: 1234567, timestamp: 1700000000 };
    assert_eq!(
        contest_line(&b),
        "<:wheat:1301456927900958762> Wheat: [`1,234,567`](https://elitebot.dev/contest/1700000000)\n "
    );
    let b = guild_uptime::BestContest { crop: s("Rice"), collected: -1000, timestamp: 5 };
    assert_eq!(contest_line(&b), " Rice: [`-1,000`](https://elitebot.dev/contest/5)\n ");
    assert_eq!(crop_emoji("Cocoa Beans"), "<:cocoa:1301456811794366535>");
    assert_eq!(crop_emoji("cactus"), "");
}

#[test]
fn message_links_are_found() {
    assert_eq!(
        message_link("see https://discord.com/channels/1/22/333 please"),
        Some((22, 333))
    );
    assert_eq!(message_link("no link here"), None);
    assert_eq!(message_link("https://discord.com/channels/1/2/99999999999999999999999"), None);
    assert_eq!(link_ids("+7", "8"), Some((7, 8)));
    assert_eq!(link_ids("7", "x"), None);
}
