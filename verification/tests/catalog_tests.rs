use playlist_catalog::catalog::{CatalogIndex, Channel, PLACEHOLDER_ICON};
use playlist_catalog::query::{
    rank_candidates, rank_listing, Candidate, CategorySummary, ListingEntry, SearchHit,
};

fn channel(name: &str, url: &str) -> Channel {
    Channel::new(name.to_string(), url.to_string(), String::new())
}

fn summary(name: &str, channel_count: usize) -> CategorySummary {
    CategorySummary { name: name.to_string(), channel_count }
}

fn names(hits: &[SearchHit]) -> Vec<(String, String, String)> {
    hits.iter()
        .map(|h| (h.channel.name().to_string(), h.category.clone(), h.channel.url().to_string()))
        .collect()
}

#[test]
fn channel_keeps_its_fields() {
    let c = Channel::new("ESPN".to_string(), "http://s/espn".to_string(), "http://x/i.png".to_string());
    assert_eq!(c.name(), "ESPN");
    assert_eq!(c.url(), "http://s/espn");
    assert_eq!(c.icon_url(), "http://x/i.png");
}

#[test]
fn channel_without_icon_gets_the_placeholder() {
    let c = Channel::new("ESPN".to_string(), "http://s/espn".to_string(), String::new());
    assert_eq!(PLACEHOLDER_ICON, "/static/placeholder.png");
    assert_eq!(c.icon_url(), "/static/placeholder.png");
}

#[test]
fn channel_clone_is_equal() {
    let c = Channel::new("a".to_string(), "b".to_string(), "c".to_string());
    let d = c.clone();
    assert_eq!(c, d);
    assert_eq!(d.name(), "a");
    assert_eq!(d.url(), "b");
    assert_eq!(d.icon_url(), "c");
}

#[test]
fn new_catalog_is_empty() {
    let catalog = CatalogIndex::new();
    assert_eq!(catalog.len(), 0);
    assert!(catalog.categories().is_empty());
    assert!(catalog.lookup("News").is_none());
    assert!(catalog.list_categories().is_empty());
    assert!(catalog.search("").is_empty());
}

#[test]
fn insert_groups_by_category_in_first_seen_order() {
    let mut catalog = CatalogIndex::new();
    catalog.insert("Sports", channel("ESPN", "http://1"));
    catalog.insert("News", channel("BBC", "http://2"));
    catalog.insert("Sports", channel("Eurosport", "http://3"));
    assert_eq!(catalog.len(), 2);
    let categories = catalog.categories();
    assert_eq!(categories[0].name(), "Sports");
    assert_eq!(categories[1].name(), "News");
    assert_eq!(categories[0].len(), 2);
    assert_eq!(categories[0].channels()[0].name(), "ESPN");
    assert_eq!(categories[0].channels()[1].name(), "Eurosport");
    assert_eq!(categories[1].channels()[0].url(), "http://2");
}

#[test]
fn insert_keeps_duplicates() {
    let mut catalog = CatalogIndex::new();
    catalog.insert("News", channel("BBC", "http://same"));
    catalog.insert("News", channel("BBC", "http://same"));
    let news = catalog.lookup("News").unwrap();
    assert_eq!(news.len(), 2);
    assert_eq!(news.channels()[0], news.channels()[1]);
}

#[test]
fn lookup_is_exact_and_case_sensitive() {
    let mut catalog = CatalogIndex::new();
    catalog.insert("News", channel("BBC", "http://2"));
    catalog.insert("news", channel("CNN", "http://3"));
    assert_eq!(catalog.lookup("News").unwrap().channels()[0].name(), "BBC");
    assert_eq!(catalog.lookup("news").unwrap().channels()[0].name(), "CNN");
    assert!(catalog.lookup("NEWS").is_none());
    assert!(catalog.lookup("New").is_none());
    assert!(catalog.lookup("News ").is_none());
    assert!(catalog.lookup("").is_none());
}

#[test]
fn declare_adds_an_empty_category_once() {
    let mut catalog = CatalogIndex::new();
    catalog.declare("Empty");
    catalog.declare("Empty");
    catalog.insert("News", channel("BBC", "http://2"));
    catalog.declare("News");
    assert_eq!(catalog.len(), 2);
    assert_eq!(catalog.lookup("Empty").unwrap().len(), 0);
    assert_eq!(catalog.lookup("News").unwrap().len(), 1);
}

#[test]
fn listing_is_sorted_without_regard_to_case() {
    let mut catalog = CatalogIndex::new();
    catalog.insert("sports", channel("a", "http://1"));
    catalog.insert("News", channel("b", "http://2"));
    catalog.insert("sports", channel("c", "http://3"));
    catalog.insert("alpha", channel("d", "http://4"));
    catalog.insert("Zulu", channel("e", "http://5"));
    assert_eq!(
        catalog.list_categories(),
        vec![summary("alpha", 1), summary("News", 1), summary("sports", 2), summary("Zulu", 1)]
    );
}

#[test]
fn listing_leaves_out_empty_categories() {
    let mut catalog = CatalogIndex::new();
    catalog.declare("Empty");
    catalog.insert("News", channel("b", "http://2"));
    catalog.declare("Another");
    assert_eq!(catalog.list_categories(), vec![summary("News", 1)]);
    assert!(catalog.lookup("Empty").is_some());
}

#[test]
fn listing_keeps_catalog_order_among_equal_names() {
    let mut catalog = CatalogIndex::new();
    catalog.insert("news", channel("a", "http://1"));
    catalog.insert("NEWS", channel("b", "http://2"));
    catalog.insert("News", channel("c", "http://3"));
    catalog.insert("ÉCOLE", channel("d", "http://4"));
    catalog.insert("école", channel("e", "http://5"));
    assert_eq!(
        catalog.list_categories(),
        vec![
            summary("news", 1),
            summary("NEWS", 1),
            summary("News", 1),
            summary("ÉCOLE", 1),
            summary("école", 1)
        ]
    );
}

#[test]
fn search_news_finds_only_bbc_news() {
    let mut catalog = CatalogIndex::new();
    catalog.insert("News", channel("BBC News HD", "http://bbc"));
    catalog.insert("Sports", channel("ESPN", "http://espn"));
    let hits = catalog.search("news");
    assert_eq!(hits.len(), 1);
    assert_eq!(hits[0].category, "News");
    assert_eq!(hits[0].channel.name(), "BBC News HD");
    assert_eq!(hits[0].channel.url(), "http://bbc");
}

#[test]
fn search_ignores_case_in_term_and_name() {
    let mut catalog = CatalogIndex::new();
    catalog.insert("News", channel("BBC News HD", "http://bbc"));
    catalog.insert("Sports", channel("ESPN", "http://espn"));
    catalog.insert("Kids", channel("ÉCOLE TV", "http://ecole"));
    assert_eq!(catalog.search("NEWS").len(), 1);
    assert_eq!(catalog.search("nEwS h").len(), 1);
    assert_eq!(catalog.search("espn")[0].channel.name(), "ESPN");
    assert_eq!(catalog.search("école")[0].channel.name(), "ÉCOLE TV");
    assert_eq!(catalog.search("École")[0].channel.name(), "ÉCOLE TV");
    assert!(catalog.search("newsx").is_empty());
}

#[test]
fn search_empty_term_finds_everything_sorted() {
    let mut catalog = CatalogIndex::new();
    catalog.insert("Z", channel("b", "http://1"));
    catalog.insert("Y", channel("a", "http://2"));
    catalog.insert("A", channel("b", "http://3"));
    catalog.insert("Z", channel("B", "http://4"));
    let hits = catalog.search("");
    assert_eq!(
        names(&hits),
        vec![
            ("B".to_string(), "Z".to_string(), "http://4".to_string()),
            ("a".to_string(), "Y".to_string(), "http://2".to_string()),
            ("b".to_string(), "A".to_string(), "http://3".to_string()),
            ("b".to_string(), "Z".to_string(), "http://1".to_string()),
        ]
    );
}

#[test]
fn search_keeps_insertion_order_for_exact_duplicates() {
    let mut catalog = CatalogIndex::new();
    catalog.insert("News", channel("BBC", "http://high"));
    catalog.insert("Other", channel("BBC", "http://other"));
    catalog.insert("News", channel("BBC", "http://low"));
    catalog.insert("News", channel("ABC", "http://abc"));
    let hits = catalog.search("bc");
    assert_eq!(
        names(&hits),
        vec![
            ("ABC".to_string(), "News".to_string(), "http://abc".to_string()),
            ("BBC".to_string(), "News".to_string(), "http://high".to_string()),
            ("BBC".to_string(), "News".to_string(), "http://low".to_string()),
            ("BBC".to_string(), "Other".to_string(), "http://other".to_string()),
        ]
    );
}

#[test]
fn search_hits_carry_the_icon() {
    let mut catalog = CatalogIndex::new();
    catalog.insert(
        "News",
        Channel::new("BBC".to_string(), "http://bbc".to_string(), "http://i/bbc.png".to_string()),
    );
    catalog.insert("News", channel("CNN", "http://cnn"));
    let hits = catalog.search("n");
    assert_eq!(hits.len(), 1);
    assert_eq!(hits[0].channel.icon_url(), "/static/placeholder.png");
    assert_eq!(catalog.search("bbc")[0].channel.icon_url(), "http://i/bbc.png");
}

#[test]
fn search_many_channels_is_sorted() {
    let mut catalog = CatalogIndex::new();
    let mut expected: Vec<(String, String, String)> = Vec::new();
    let mut seed: u32 = 7;
    for i in 0..300 {
        seed = seed.wrapping_mul(1103515245).wrapping_add(12345);
        let name = format!("ch{}", (seed >> 16) % 50);
        seed = seed.wrapping_mul(1103515245).wrapping_add(12345);
        let category = format!("cat{}", (seed >> 16) % 7);
        let url = format!("http://{}", i);
        catalog.insert(&category, channel(&name, &url));
        expected.push((name, category, url));
    }
    expected.sort_by(|x, y| (x.0.as_str(), x.1.as_str()).cmp(&(y.0.as_str(), y.1.as_str())));
    let hits = catalog.search("CH");
    assert_eq!(hits.len(), 300);
    let got = names(&hits);
    for k in 0..300 {
        assert_eq!((&got[k].0, &got[k].1), (&expected[k].0, &expected[k].1));
    }
}

#[test]
fn summary_shows_a_name_for_the_nameless() {
    assert_eq!(summary("News", 1).display_name(), "News");
    assert_eq!(summary("", 1).display_name(), "No Category");
    let mut catalog = CatalogIndex::new();
    catalog.insert("", channel("a", "http://1"));
    assert_eq!(catalog.list_categories()[0].name, "");
    assert_eq!(catalog.list_categories()[0].display_name(), "No Category");
}

#[test]
fn category_can_be_made_of_channels() {
    let category = playlist_catalog::catalog::Category::new(
        "News".to_string(),
        vec![channel("BBC", "http://1"), channel("CNN", "http://2")],
    );
    assert_eq!(category.name(), "News");
    assert_eq!(category.len(), 2);
    assert_eq!(category.channels()[1].name(), "CNN");
}

fn entry(folded_name: &str, name: &str, channel_count: usize) -> ListingEntry {
    ListingEntry { folded_name: folded_name.to_string(), summary: summary(name, channel_count) }
}

#[test]
fn rank_candidates_picks_by_the_given_lower_case_name() {
    let bbc = channel("BBC News HD", "http://bbc");
    let espn = channel("ESPN", "http://espn");
    let odd = channel("Shown name", "http://odd");
    let candidates = vec![
        Candidate { folded_name: "bbc news hd".to_string(), category: "News", channel: &bbc },
        Candidate { folded_name: "espn".to_string(), category: "Sports", channel: &espn },
        Candidate { folded_name: "old news".to_string(), category: "Odd", channel: &odd },
    ];
    let hits = rank_candidates(&candidates, "news");
    assert_eq!(
        names(&hits),
        vec![
            ("BBC News HD".to_string(), "News".to_string(), "http://bbc".to_string()),
            ("Shown name".to_string(), "Odd".to_string(), "http://odd".to_string()),
        ]
    );
    assert!(rank_candidates(&candidates, "NEWS").is_empty());
    assert_eq!(rank_candidates(&candidates, "").len(), 3);
    assert!(rank_candidates(&Vec::new(), "news").is_empty());
}

#[test]
fn rank_candidates_orders_by_name_then_category_then_place() {
    let b1 = channel("b", "http://1");
    let a = channel("a", "http://2");
    let b2 = channel("b", "http://3");
    let b3 = channel("b", "http://4");
    let candidates = vec![
        Candidate { folded_name: "x".to_string(), category: "Z", channel: &b1 },
        Candidate { folded_name: "x".to_string(), category: "Y", channel: &a },
        Candidate { folded_name: "x".to_string(), category: "A", channel: &b2 },
        Candidate { folded_name: "x".to_string(), category: "Z", channel: &b3 },
        Candidate { folded_name: "y".to_string(), category: "A", channel: &a },
    ];
    assert_eq!(
        names(&rank_candidates(&candidates, "x")),
        vec![
            ("a".to_string(), "Y".to_string(), "http://2".to_string()),
            ("b".to_string(), "A".to_string(), "http://3".to_string()),
            ("b".to_string(), "Z".to_string(), "http://1".to_string()),
            ("b".to_string(), "Z".to_string(), "http://4".to_string()),
        ]
    );
}

#[test]
fn rank_listing_drops_empty_entries_and_sorts_by_the_given_name() {
    let entries = vec![
        entry("sports", "Sports", 2),
        entry("empty", "Empty", 0),
        entry("news", "NEWS", 1),
        entry("alpha", "Zulu shown", 3),
        entry("news", "news", 4),
    ];
    assert_eq!(
        rank_listing(entries),
        vec![summary("Zulu shown", 3), summary("NEWS", 1), summary("news", 4), summary("Sports", 2)]
    );
    assert!(rank_listing(Vec::new()).is_empty());
    assert!(rank_listing(vec![entry("a", "a", 0)]).is_empty());
}
