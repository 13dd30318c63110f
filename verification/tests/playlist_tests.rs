use playlist_catalog::catalog::CatalogIndex;
use playlist_catalog::playlist::{
    clean_channel_name, parse_directive, parse_playlist, ParserState, Pending, PlaylistParser,
};

fn total(catalog: &CatalogIndex) -> usize {
    catalog.categories().iter().map(|c| c.len()).sum()
}

fn pending(category: &str, name: &str, icon_url: &str) -> Option<Pending> {
    Some(Pending {
        category: category.to_string(),
        name: name.to_string(),
        icon_url: icon_url.to_string(),
    })
}

#[test]
fn parse_one_channel() {
    let text = "#EXTINF:-1 group-title=\"Sports\" tvg-logo=\"http://x/icon.png\",ESPN\nhttp://stream/espn\n";
    let catalog = parse_playlist(text);
    assert_eq!(catalog.len(), 1);
    let sports = catalog.lookup("Sports").unwrap();
    assert_eq!(sports.name(), "Sports");
    assert_eq!(sports.len(), 1);
    let espn = &sports.channels()[0];
    assert_eq!(espn.name(), "ESPN");
    assert_eq!(espn.url(), "http://stream/espn");
    assert_eq!(espn.icon_url(), "http://x/icon.png");
}

#[test]
fn parse_empty_text() {
    assert_eq!(parse_playlist("").len(), 0);
    assert_eq!(parse_playlist("\n\n").len(), 0);
    assert_eq!(parse_playlist("#EXTM3U\n").len(), 0);
}

#[test]
fn directive_without_group_is_uncategorized() {
    let catalog = parse_playlist("#EXTINF:-1 tvg-logo=\"l.png\",CNN\nhttp://s/cnn");
    assert_eq!(catalog.len(), 1);
    let c = catalog.lookup("Uncategorized").unwrap();
    assert_eq!(c.len(), 1);
    assert_eq!(c.channels()[0].url(), "http://s/cnn");
    assert_eq!(c.channels()[0].icon_url(), "l.png");
}

#[test]
fn directive_with_empty_group_is_no_category() {
    let catalog = parse_playlist(
        "#EXTINF:-1 group-title=\"\",Foo\nhttp://s/foo\n#EXTINF:-1 group=\"\",Bar\nhttp://s/bar\n",
    );
    assert_eq!(catalog.len(), 1);
    let c = catalog.lookup("No Category").unwrap();
    assert_eq!(c.len(), 2);
    assert_eq!(c.channels()[0].name(), "Foo");
    assert_eq!(c.channels()[1].name(), "Bar");
}

#[test]
fn group_title_is_looked_at_before_group() {
    assert_eq!(
        parse_directive("#EXTINF:-1 group=\"B\" group-title=\"A\",X"),
        pending("A", "X", "")
    );
    assert_eq!(parse_directive("#EXTINF:-1 tvg-logo=\"x\" group=\"Movies\",The Film"), pending("Movies", "The Film", "x"));
}

#[test]
fn unclosed_group_title_hides_group() {
    assert_eq!(
        parse_directive("#EXTINF:-1 group=\"\" group-title=\"abc,Name"),
        pending("No Category", "group=", "")
    );
    assert_eq!(
        parse_directive("#EXTINF:-1 group=\"G\" group-title=\"abc,Name"),
        pending("Uncategorized", "group=", "")
    );
}

#[test]
fn name_without_group_comes_from_the_head() {
    assert_eq!(
        parse_directive("#EXTINF:-1 tvg-id=\"\" tvg-name=\"CNN\" tvg-logo=\"l.png\",Shown"),
        pending("Uncategorized", "CNN", "l.png")
    );
    assert_eq!(parse_directive("#EXTINF:-1,ESPN"), pending("Uncategorized", "", ""));
    assert_eq!(parse_directive("#EXTINF:-1 Plain name"), pending("Uncategorized", "Plain name", ""));
    assert_eq!(parse_directive("#EXTINF:0 Plain name"), pending("Uncategorized", "#EXTINF:0 Plain name", ""));
}

#[test]
fn name_with_group_is_what_follows_the_first_comma() {
    assert_eq!(parse_directive("#EXTINF:-1 group-title=\"News\",  BBC World  "), pending("News", "BBC World", ""));
    assert_eq!(parse_directive("#EXTINF:-1 group-title=\"News\",BBC, World"), pending("News", "BBC, World", ""));
    assert_eq!(parse_directive("#EXTINF:-1 group-title=\"News\","), pending("News", "", ""));
    assert_eq!(
        parse_directive("#EXTINF:-1 group-title=\"G\",tvg-name=\"Chan 1\" extra"),
        pending("G", "Chan 1", "")
    );
}

#[test]
fn directive_with_group_and_no_comma_announces_nothing() {
    assert_eq!(parse_directive("#EXTINF:-1 group-title=\"News\""), None);
    assert_eq!(parse_directive("#EXTINF:-1 group=\"News\" tvg-logo=\"x\""), None);
}

#[test]
fn logo_without_closing_quote_is_none() {
    assert_eq!(parse_directive("#EXTINF:-1 group-title=\"G\" tvg-logo=\"http://x,N"), pending("G", "N", ""));
}

#[test]
fn clean_channel_name_cases() {
    assert_eq!(clean_channel_name("ESPN"), "ESPN");
    assert_eq!(clean_channel_name(""), "");
    assert_eq!(clean_channel_name("tvg-id=\"\" ESPN"), "ESPN");
    assert_eq!(clean_channel_name("tvg-id=\"\"tvg-id=\"\" tvg-name=\"ESPN HD\" more"), "ESPN HD");
    assert_eq!(clean_channel_name("tvg-name=\"A B\""), "A B");
    assert_eq!(clean_channel_name("Name \" rest"), "Name");
    assert_eq!(clean_channel_name("\"quoted"), "");
    assert_eq!(clean_channel_name(" lead"), " lead".trim_start_matches("tvg-id=\"\"").trim());
    assert_eq!(clean_channel_name("tvg-name=\"tvg-name=\"x"), "x");
    assert_eq!(clean_channel_name("tvg-id=\"1\" X"), "tvg-id=");
}

#[test]
fn malformed_directive_returns_to_idle() {
    let text = "#EXTINF:-1 group-title=\"A\",One\n#EXTINF:-1 group-title=\"B\"\nhttp://s/1\n";
    let catalog = parse_playlist(text);
    assert_eq!(catalog.len(), 0);
}

#[test]
fn later_directive_replaces_earlier() {
    let text = "#EXTINF:-1 group-title=\"A\",One\n#EXTINF:-1 group-title=\"B\",Two\nhttp://s/2\n";
    let catalog = parse_playlist(text);
    assert_eq!(catalog.len(), 1);
    assert!(catalog.lookup("A").is_none());
    assert_eq!(catalog.lookup("B").unwrap().channels()[0].name(), "Two");
}

#[test]
fn other_lines_are_passed_over() {
    let text = "#EXTM3U\n\n#EXTINF:-1 group-title=\"A\",One\n#EXTVLCOPT:x=1\n\n  \nrtmp://no\nhttp://s/1\nhttp://s/orphan\n";
    let catalog = parse_playlist(text);
    assert_eq!(total(&catalog), 1);
    let a = catalog.lookup("A").unwrap();
    assert_eq!(a.channels()[0].name(), "One");
    assert_eq!(a.channels()[0].url(), "http://s/1");
    assert_eq!(a.channels()[0].icon_url(), "/static/placeholder.png");
}

#[test]
fn stream_line_without_directive_is_ignored() {
    assert_eq!(parse_playlist("http://s/1\nhttps://s/2\n").len(), 0);
}

#[test]
fn stream_line_must_begin_with_the_scheme() {
    let catalog = parse_playlist("#EXTINF:-1 group-title=\"A\",One\n http://s/1\nhttps://s/2\n");
    assert_eq!(catalog.lookup("A").unwrap().channels()[0].url(), "https://s/2");
}

#[test]
fn carriage_returns_are_cut() {
    let text = "#EXTM3U\r\n#EXTINF:-1 group-title=\"A\",One\r\nhttp://s/1\r\n";
    let catalog = parse_playlist(text);
    let a = catalog.lookup("A").unwrap();
    assert_eq!(a.channels()[0].name(), "One");
    assert_eq!(a.channels()[0].url(), "http://s/1");
}

#[test]
fn duplicates_are_kept_in_order() {
    let text = "#EXTINF:-1 group-title=\"A\",One\nhttp://s/1\n#EXTINF:-1 group-title=\"B\",X\nhttp://s/x\n#EXTINF:-1 group-title=\"A\",One\nhttp://s/1\n#EXTINF:-1 group-title=\"A\",Two\nhttp://s/2";
    let catalog = parse_playlist(text);
    assert_eq!(catalog.len(), 2);
    assert_eq!(catalog.categories()[0].name(), "A");
    assert_eq!(catalog.categories()[1].name(), "B");
    let a = catalog.lookup("A").unwrap();
    assert_eq!(a.len(), 3);
    assert_eq!(a.channels()[0], a.channels()[1]);
    assert_eq!(a.channels()[2].name(), "Two");
    assert_eq!(a.channels()[2].url(), "http://s/2");
}

#[test]
fn channel_count_is_the_number_of_completing_lines() {
    let lines = [
        "#EXTM3U",
        "http://orphan",
        "#EXTINF:-1 group-title=\"A\",1",
        "http://s/1",
        "http://s/second-address",
        "#EXTINF:-1 group-title=\"A\",2",
        "# comment",
        "http://s/2",
        "#EXTINF:-1 group-title=\"broken\"",
        "http://s/none",
        "#EXTINF:-1,3",
        "#EXTINF:-1 group=\"\",4",
        "http://s/4",
        "#EXTINF:-1 group-title=\"A\",5",
    ];
    let catalog = parse_playlist(&lines.join("\n"));
    assert_eq!(total(&catalog), 3);
    assert_eq!(catalog.lookup("A").unwrap().len(), 2);
    assert_eq!(catalog.lookup("No Category").unwrap().len(), 1);
}

#[test]
fn parser_can_be_fed_line_by_line() {
    let mut parser = PlaylistParser::new();
    assert_eq!(parser.state(), ParserState::Idle);
    parser.feed("#EXTM3U");
    assert_eq!(parser.state(), ParserState::Idle);
    parser.feed("#EXTINF:-1 group-title=\"Sports\" tvg-logo=\"http://x/icon.png\",ESPN");
    assert_eq!(parser.state(), ParserState::AwaitingUrl);
    parser.feed("");
    assert_eq!(parser.state(), ParserState::AwaitingUrl);
    parser.feed("http://stream/espn");
    assert_eq!(parser.state(), ParserState::Idle);
    parser.feed("http://stream/other");
    parser.feed("#EXTINF:-1 group-title=\"News\"");
    assert_eq!(parser.state(), ParserState::Idle);
    parser.feed("#EXTINF:-1 group-title=\"News\",Left over");
    assert_eq!(parser.state(), ParserState::AwaitingUrl);
    let catalog = parser.finish();
    assert_eq!(catalog.len(), 1);
    assert_eq!(catalog.lookup("Sports").unwrap().channels()[0].url(), "http://stream/espn");
}

#[test]
fn parsed_catalog_can_be_searched_and_listed() {
    let text = "#EXTINF:-1 group-title=\"news\",BBC News HD\nhttp://bbc\n#EXTINF:-1 group-title=\"Sports\",ESPN\nhttp://espn\n";
    let catalog = parse_playlist(text);
    let hits = catalog.search("news");
    assert_eq!(hits.len(), 1);
    assert_eq!(hits[0].channel.name(), "BBC News HD");
    assert_eq!(hits[0].category, "news");
    let listing = catalog.list_categories();
    assert_eq!(listing[0].name, "news");
    assert_eq!(listing[1].name, "Sports");
}
