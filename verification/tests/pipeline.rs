use news_curator::config::Source as ConfigSource;
use news_curator::config::SourceType;
use news_curator::result_ops::traverse_option;
use news_curator::result_ops::traverse_vec;
use news_curator::site::make_site_models;
use news_curator::state::Category;
use news_curator::state::Item;
use news_curator::state::Source;
use news_curator::state::State;
use news_curator::state::cutoff_timestamp;
use news_curator::text::string_to_title;
use news_curator::text::title_to_id;

fn item(title: &str, link: &str, published_at: Option<i64>) -> Item {
    Item { title: title.to_string(), link: link.to_string(), published_at }
}

fn source(title: &str, category: &str, items: Vec<Item>) -> Source {
    Source {
        title: title.to_string(),
        items,
        category: Category { title: category.to_string() },
        link: format!("https://{}.example/feed", title.to_lowercase()),
    }
}

#[test]
fn id_of_title_with_spaces_and_uppercase() {
    assert_eq!(title_to_id("Hacker News".to_string()), "hacker-news");
}

#[test]
fn id_is_deterministic() {
    let a = title_to_id("World News Today".to_string());
    let b = title_to_id("World News Today".to_string());
    assert_eq!(a, b);
}

#[test]
fn string_to_title_is_identity() {
    assert_eq!(string_to_title("Tech".to_string()), "Tech");
}

#[test]
fn site_item_escapes_text_fields() {
    let site_item = news_curator::site::Item::new(
        "<b>News & \"quotes\"</b>".to_string(),
        "https://example.com/a?x=1&y=2".to_string(),
        "A 'source'".to_string(),
        "a-'source'".to_string(),
        "2024-01-01".to_string(),
        7,
    );
    assert_eq!(
        site_item.title,
        "&lt;b&gt;News &amp; &quot;quotes&quot;&lt;&#x2F;b&gt;"
    );
    assert_eq!(site_item.link, "https://example.com/a?x=1&y=2");
    assert_eq!(site_item.source, "A &#x27;source&#x27;");
    assert_eq!(site_item.source_id, "a-&#x27;source&#x27;");
    assert_eq!(site_item.published_at, "2024-01-01");
    assert_eq!(site_item.timestamp, 7);
}

#[test]
fn site_item_from_state_item_derives_date_and_id() {
    let site_item = news_curator::site::Item::from_state_item(
        item("Launch", "https://example.com/launch", Some(1424301369)),
        "Hacker News".to_string(),
    );
    assert_eq!(site_item.title, "Launch");
    assert_eq!(site_item.source, "Hacker News");
    assert_eq!(site_item.source_id, "hacker-news");
    assert_eq!(site_item.published_at, "2015-02-18");
    assert_eq!(site_item.timestamp, 1424301369);
}

#[test]
fn site_item_without_date_gets_zero_timestamp() {
    let site_item = news_curator::site::Item::from_state_item(
        item("Undated", "https://example.com/u", None),
        "A".to_string(),
    );
    assert_eq!(site_item.published_at, "");
    assert_eq!(site_item.timestamp, 0);
}

#[test]
fn load_rss_single_item_in_window() {
    let body = b"<?xml version=\"1.0\"?>\
<rss version=\"2.0\"><channel><title>A</title><link>https://a.example</link>\
<description>d</description>\
<item><title>Fresh</title><link>https://a.example/fresh</link>\
<pubDate>Wed, 18 Feb 2015 23:16:09 GMT</pubDate></item>\
</channel></rss>";
    let loaded = Source::load_rss(
        "https://a.example/rss".to_string(),
        "A".to_string(),
        "World".to_string(),
        body,
    )
    .unwrap();
    assert_eq!(loaded.title, "A");
    assert_eq!(loaded.category.title, "World");
    assert_eq!(loaded.link, "https://a.example/rss");
    assert_eq!(loaded.items.len(), 1);
    assert_eq!(loaded.items[0].title, "Fresh");
    assert_eq!(loaded.items[0].link, "https://a.example/fresh");
    assert_eq!(loaded.items[0].published_at, Some(1424301369));
}

#[test]
fn load_rss_bad_date_degrades_to_none() {
    let body = b"<?xml version=\"1.0\"?>\
<rss version=\"2.0\"><channel><title>A</title><link>https://a.example</link>\
<description>d</description>\
<item><title>Odd</title><link>https://a.example/odd</link>\
<pubDate>not a date</pubDate></item>\
</channel></rss>";
    let loaded = Source::load_rss(
        "https://a.example/rss".to_string(),
        "A".to_string(),
        "World".to_string(),
        body,
    )
    .unwrap();
    assert_eq!(loaded.items.len(), 1);
    assert_eq!(loaded.items[0].published_at, None);
}

#[test]
fn load_rss_rejects_malformed_body() {
    let result = Source::load_rss(
        "https://a.example/rss".to_string(),
        "A".to_string(),
        "World".to_string(),
        b"this is not xml at all",
    );
    assert!(result.is_err());
}

#[test]
fn load_atom_single_entry() {
    let body = b"<?xml version=\"1.0\"?>\
<feed xmlns=\"http://www.w3.org/2005/Atom\">\
<title>B</title><id>urn:b</id><updated>2015-02-18T23:16:09Z</updated>\
<entry><title>Entry</title><id>urn:b:1</id><updated>2015-02-18T23:16:09Z</updated>\
<link href=\"https://b.example/entry\"/>\
<published>2015-02-18T23:16:09Z</published></entry>\
</feed>";
    let loaded = Source::load_atom(
        "https://b.example/atom.xml".to_string(),
        "B".to_string(),
        "Tech".to_string(),
        body,
    )
    .unwrap();
    assert_eq!(loaded.title, "B");
    assert_eq!(loaded.category.title, "Tech");
    assert_eq!(loaded.items.len(), 1);
    assert_eq!(loaded.items[0].title, "Entry");
    assert_eq!(loaded.items[0].link, "https://b.example/entry");
    assert_eq!(loaded.items[0].published_at, Some(1424301369));
}

#[test]
fn load_prefixes_error_with_source_title() {
    let config_source = ConfigSource {
        title: "Broken".to_string(),
        link: "https://broken.example/rss".to_string(),
        category: "World".to_string(),
        s_type: SourceType::RSS,
    };
    let result = Source::load(config_source, Err("HTTP 500".to_string()));
    assert_eq!(
        result.unwrap_err(),
        "Error loading source 'Broken': HTTP 500"
    );
}

#[test]
fn load_dispatches_on_declared_type() {
    let body = b"<?xml version=\"1.0\"?>\
<feed xmlns=\"http://www.w3.org/2005/Atom\">\
<title>B</title><id>urn:b</id><updated>2015-02-18T23:16:09Z</updated>\
</feed>";
    let config_source = ConfigSource {
        title: "B".to_string(),
        link: "https://b.example/atom.xml".to_string(),
        category: "Tech".to_string(),
        s_type: SourceType::Atom,
    };
    let loaded = Source::load(config_source, Ok(body.to_vec())).unwrap();
    assert_eq!(loaded.title, "B");
    assert_eq!(loaded.items.len(), 0);
}

#[test]
fn cutoff_is_three_days_before_now() {
    assert_eq!(cutoff_timestamp(1_000_000_000), 1_000_000_000 - 259_200);
}

#[test]
fn filter_drops_stale_and_undated_items() {
    let now: i64 = 1_000_000_000;
    let cutoff = cutoff_timestamp(now);
    let loaded = source(
        "A",
        "World",
        vec![
            item("Stale", "https://a.example/stale", Some(now - 10 * 86_400)),
            item("Fresh", "https://a.example/fresh", Some(now - 86_400)),
            item("Undated", "https://a.example/undated", None),
        ],
    );
    let filtered = loaded.filter_items_by_date(cutoff);
    assert_eq!(filtered.items.len(), 1);
    assert_eq!(filtered.items[0].title, "Fresh");
    assert_eq!(filtered.title, "A");
    assert_eq!(filtered.category.title, "World");
}

#[test]
fn filter_keeps_item_exactly_at_cutoff() {
    let filtered = source("A", "World", vec![item("Edge", "", Some(500))])
        .filter_items_by_date(500);
    assert_eq!(filtered.items.len(), 1);
}

#[test]
fn assemble_isolated_omits_failed_sources() {
    let results: Vec<Result<Source, String>> = vec![
        Ok(source("A", "World", vec![])),
        Err("Error loading source 'B': HTTP 500".to_string()),
        Ok(source("C", "World", vec![])),
    ];
    let (state, errors) = State::assemble(results);
    assert_eq!(state.sources.len(), 2);
    assert_eq!(state.sources[0].title, "A");
    assert_eq!(state.sources[1].title, "C");
    assert_eq!(errors, vec!["Error loading source 'B': HTTP 500".to_string()]);
}

#[test]
fn traverse_vec_collects_all_ok() {
    let values: Vec<Result<i32, String>> = vec![Ok(1), Ok(2), Ok(3)];
    assert_eq!(traverse_vec(values).unwrap(), vec![1, 2, 3]);
}

#[test]
fn traverse_vec_returns_first_error() {
    let values: Vec<Result<i32, String>> =
        vec![Ok(1), Err("first".to_string()), Err("second".to_string())];
    assert_eq!(traverse_vec(values).unwrap_err(), "first");
}

#[test]
fn traverse_option_inverts_layers() {
    assert_eq!(
        traverse_option::<i32, String>(Some(Ok(5))).unwrap(),
        Some(5)
    );
    assert_eq!(traverse_option::<i32, String>(None).unwrap(), None);
    assert_eq!(
        traverse_option::<i32, String>(Some(Err("e".to_string()))).unwrap_err(),
        "e"
    );
}

#[test]
fn empty_state_yields_empty_site() {
    let model = make_site_models(State { sources: vec![] });
    assert!(model.categories.is_empty());
    assert!(model.sources.is_empty());
    assert!(model.index.categories.is_empty());
    assert!(model.index.sources.is_empty());
}

#[test]
fn mixed_formats_share_one_category_page() {
    let state = State {
        sources: vec![
            source("R", "Tech", vec![item("Older", "https://r.example/1", Some(100))]),
            source("B", "Tech", vec![item("Newer", "https://b.example/1", Some(200))]),
        ],
    };
    let model = make_site_models(state);
    assert_eq!(model.categories.len(), 1);
    let tech = &model.categories[0];
    assert_eq!(tech.id, "tech");
    assert_eq!(tech.title, "Tech");
    assert_eq!(tech.items.len(), 2);
    assert_eq!(tech.items[0].title, "Newer");
    assert_eq!(tech.items[1].title, "Older");
    assert!(tech.other_categories.is_empty());
}

#[test]
fn categories_and_sources_are_sorted_in_index() {
    let state = State {
        sources: vec![
            source("Zeta", "World", vec![]),
            source("Alpha", "Tech", vec![]),
            source("Mid", "Business", vec![]),
        ],
    };
    let model = make_site_models(state);
    let category_titles: Vec<&str> =
        model.index.categories.iter().map(|c| c.title.as_str()).collect();
    assert_eq!(category_titles, vec!["Business", "Tech", "World"]);
    let category_ids: Vec<&str> =
        model.index.categories.iter().map(|c| c.id.as_str()).collect();
    assert_eq!(category_ids, vec!["business", "tech", "world"]);
    let source_titles: Vec<&str> =
        model.index.sources.iter().map(|s| s.title.as_str()).collect();
    assert_eq!(source_titles, vec!["Alpha", "Mid", "Zeta"]);
    assert_eq!(model.categories.len(), 3);
    assert_eq!(model.categories[0].title, "Business");
    assert_eq!(model.categories[1].title, "Tech");
    assert_eq!(model.categories[2].title, "World");
}

#[test]
fn other_categories_exclude_own_title_and_stay_sorted() {
    let state = State {
        sources: vec![
            source("A", "World", vec![]),
            source("B", "Tech", vec![]),
            source("C", "Business", vec![]),
        ],
    };
    let model = make_site_models(state);
    let tech = &model.categories[1];
    assert_eq!(tech.title, "Tech");
    let others: Vec<&str> =
        tech.other_categories.iter().map(|r| r.title.as_str()).collect();
    assert_eq!(others, vec!["Business", "World"]);
}

#[test]
fn undated_items_sort_last() {
    let state = State {
        sources: vec![source(
            "A",
            "World",
            vec![
                item("Undated", "", None),
                item("Old", "", Some(100)),
                item("New", "", Some(200)),
            ],
        )],
    };
    let model = make_site_models(state);
    let titles: Vec<&str> =
        model.categories[0].items.iter().map(|i| i.title.as_str()).collect();
    assert_eq!(titles, vec!["New", "Old", "Undated"]);
    let source_page = &model.sources[0];
    let page_titles: Vec<&str> =
        source_page.items.iter().map(|i| i.title.as_str()).collect();
    assert_eq!(page_titles, vec!["New", "Old", "Undated"]);
}

#[test]
fn items_with_equal_timestamps_keep_arrival_order() {
    let state = State {
        sources: vec![source(
            "A",
            "World",
            vec![item("First", "", Some(100)), item("Second", "", Some(100))],
        )],
    };
    let model = make_site_models(state);
    let titles: Vec<&str> =
        model.categories[0].items.iter().map(|i| i.title.as_str()).collect();
    assert_eq!(titles, vec!["First", "Second"]);
}

#[test]
fn category_pages_do_not_leak_items_across_categories() {
    let state = State {
        sources: vec![
            source("A", "World", vec![item("WorldItem", "", Some(100))]),
            source("B", "Tech", vec![item("TechItem", "", Some(200))]),
        ],
    };
    let model = make_site_models(state);
    let tech = model.categories.iter().find(|c| c.title == "Tech").unwrap();
    let world = model.categories.iter().find(|c| c.title == "World").unwrap();
    assert_eq!(tech.items.len(), 1);
    assert_eq!(tech.items[0].title, "TechItem");
    assert_eq!(tech.items[0].source, "B");
    assert_eq!(world.items.len(), 1);
    assert_eq!(world.items[0].title, "WorldItem");
    assert_eq!(world.items[0].source, "A");
}

#[test]
fn source_page_carries_category_info_and_ids() {
    let state = State {
        sources: vec![source("Hacker News", "Tech News", vec![])],
    };
    let model = make_site_models(state);
    let page = &model.sources[0];
    assert_eq!(page.id, "hacker-news");
    assert_eq!(page.title, "Hacker News");
    assert_eq!(page.category_id, "tech-news");
    assert_eq!(page.category_name, "Tech News");
    assert_eq!(model.index.sources.len(), 1);
    assert_eq!(model.index.sources[0].id, "hacker-news");
}

#[test]
fn site_model_building_is_deterministic() {
    let build = || {
        make_site_models(State {
            sources: vec![
                source("A", "World", vec![item("X", "https://a/x", Some(5))]),
                source("B", "Tech", vec![item("Y", "https://b/y", None)]),
            ],
        })
    };
    let first = build();
    let second = build();
    assert_eq!(first.index.categories.len(), second.index.categories.len());
    for (a, b) in first.index.categories.iter().zip(second.index.categories.iter()) {
        assert_eq!(a.id, b.id);
        assert_eq!(a.title, b.title);
    }
    assert_eq!(first.categories.len(), second.categories.len());
    for (a, b) in first.categories.iter().zip(second.categories.iter()) {
        assert_eq!(a.id, b.id);
        assert_eq!(a.title, b.title);
        assert_eq!(a.items.len(), b.items.len());
        for (x, y) in a.items.iter().zip(b.items.iter()) {
            assert_eq!(x.title, y.title);
            assert_eq!(x.link, y.link);
            assert_eq!(x.timestamp, y.timestamp);
        }
    }
    assert_eq!(first.sources.len(), second.sources.len());
    for (a, b) in first.sources.iter().zip(second.sources.iter()) {
        assert_eq!(a.id, b.id);
        assert_eq!(a.title, b.title);
    }
}

#[test]
fn failed_source_is_absent_from_every_listing() {
    let fresh: i64 = 1_000_000;
    let results: Vec<Result<Source, String>> = vec![
        Ok(source("A", "World", vec![item("a1", "", Some(fresh))])),
        Err("Error loading source 'B': HTTP 500".to_string()),
        Ok(source("C", "World", vec![item("c1", "", Some(fresh))])),
    ];
    let (state, errors) = State::assemble(results);
    assert_eq!(errors.len(), 1);
    let model = make_site_models(state);
    assert_eq!(model.index.sources.len(), 2);
    assert!(model.index.sources.iter().all(|s| s.title != "B"));
    assert!(model.sources.iter().all(|s| s.id != "b"));
    for category in &model.categories {
        assert!(category.items.iter().all(|i| i.source != "B"));
    }
}

#[test]
fn no_stale_item_appears_on_any_page() {
    let now: i64 = 1_000_000_000;
    let cutoff = cutoff_timestamp(now);
    let loaded = vec![
        source(
            "A",
            "World",
            vec![
                item("Stale", "", Some(now - 10 * 86_400)),
                item("Fresh", "", Some(now - 86_400)),
            ],
        ),
    ];
    let filtered: Vec<Source> =
        loaded.into_iter().map(|s| s.filter_items_by_date(cutoff)).collect();
    let model = make_site_models(State { sources: filtered });
    for category in &model.categories {
        assert!(category.items.iter().all(|i| i.timestamp >= cutoff));
        assert!(category.items.iter().all(|i| i.title != "Stale"));
    }
    for page in &model.sources {
        assert!(page.items.iter().all(|i| i.timestamp >= cutoff));
    }
}

#[test]
fn output_paths_follow_the_site_layout() {
    assert_eq!(
        news_curator::site::source_page_path(&"hacker-news".to_string()),
        "./site/sources/hacker-news.html"
    );
    assert_eq!(
        news_curator::site::category_page_path(&"world".to_string()),
        "./site/categories/world.html"
    );
    assert_eq!(news_curator::site::index_path(), "./site/index.html");
}

#[test]
fn duplicate_source_titles_keep_config_order() {
    let state = State {
        sources: vec![
            source("Mirror", "World", vec![item("first-copy", "https://one.example", Some(10))]),
            source("Mirror", "World", vec![item("second-copy", "https://two.example", Some(20))]),
        ],
    };
    let model = make_site_models(state);
    assert_eq!(model.sources.len(), 2);
    assert_eq!(model.sources[0].items[0].title, "first-copy");
    assert_eq!(model.sources[1].items[0].title, "second-copy");
}
