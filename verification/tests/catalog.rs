use osrs_random::catalog::{
    checked_catalog, is_fresh, load, within_limit, Cache, Catalog, CatalogError, Loaded, Source,
    CACHE_AGE, MAX_DATA_SIZE,
};
use osrs_random::sources::{
    bosses_from_wiki, catalog_from_sources, parse_bosses, parse_skills, skills_from_page,
};

fn names(prefix: &str, n: usize) -> Vec<String> {
    (1..=n).map(|i| format!("{prefix} {i:02}")).collect()
}

/// A complete catalogue: 24 skills, 6 categories of 8 bosses.
fn sample() -> Catalog {
    let bosses = (1..=6)
        .map(|c| (format!("Category {c}"), names(&format!("Boss {c}"), 8)))
        .collect();
    Catalog { bosses, skills: names("Skill", 24) }
}

fn never() -> Result<Catalog, CatalogError> {
    panic!("Unexpected fetch")
}

fn skills_of(loaded: &Result<Loaded, CatalogError>) -> Vec<String> {
    loaded.as_ref().unwrap().catalog.skills.clone()
}

#[test]
fn cache_expiry_handles_clock_changes() {
    assert!(is_fresh(100, 100));
    assert!(!is_fresh(100, 99));
    assert!(!is_fresh(0, CACHE_AGE));
}

#[test]
fn freshness_lasts_just_under_a_day() {
    assert!(is_fresh(0, CACHE_AGE - 1));
    assert!(is_fresh(1000, 1000 + CACHE_AGE - 1));
    assert!(!is_fresh(1000, 1000 + CACHE_AGE));
    assert!(!is_fresh(u64::MAX, 0));
}

#[test]
fn discovers_new_skills_and_excludes_activities_and_overall() {
    let mut html = String::from("<div id='contentCategory'>");
    for id in 1..=25 {
        html.push_str(&format!("<a href='overall?table={id}'>Skill {id}</a>"));
    }
    html.push_str("<a href='overall?table=0'>Overall</a>");
    html.push_str("<a href='overall?category_type=1&amp;table=26'>Clues</a></div>");
    let skills = parse_skills(&html).unwrap();
    assert_eq!(skills.len(), 25);
    assert!(skills.contains(&"Skill 25".into()));
}

#[test]
fn skills_are_sorted_unique_and_whitespace_collapsed() {
    let mut html = String::from("<div id='contentCategory'>");
    for id in (1..=24).rev() {
        html.push_str(&format!("<a href='overall?table={id}'>  Skill\n{id:02} </a>"));
    }
    html.push_str("<a href='overall?table=3&amp;category_type=0'>Skill 03</a>");
    html.push_str("<a href='overall?table=%2B4'>Plus four</a>");
    html.push_str("<a href='overall?table=4294967296'>Too large</a>");
    html.push_str("<a href='overall?table=x&amp;table=5'>Last wins</a>");
    html.push_str("</div><a href='overall?table=30'>Outside</a>");
    let skills = parse_skills(&html).unwrap();
    let mut expected: Vec<String> = (1..=24).map(|i| format!("Skill {i:02}")).collect();
    expected.push("Last wins".into());
    expected.push("Plus four".into());
    expected.sort();
    assert_eq!(skills, expected);
}

#[test]
fn too_few_skills_are_refused() {
    let mut html = String::from("<div id='contentCategory'>");
    for id in 1..=22 {
        html.push_str(&format!("<a href='overall?table={id}'>Skill {id}</a>"));
    }
    html.push_str("<a href='overall?table=22'>Skill 22</a></div>");
    assert_eq!(parse_skills(&html), Err(CatalogError::SkillListMissing));
}

const BOSSES_PAGE: &str = "<table class='navbox' data-navbox-name='Bosses'><tbody>\
    <tr class='navbox-group'><th class='navbox-group-title'>World bosses</th>\
    <td class='navbox-list'><table><tbody>\
    <tr class='navbox-group'><td class='navbox-list'><ul><li>\
    <a href='/w/New_boss'>New boss</a> (<a href='/w/Minion'>Minion</a>)</li></ul></td></tr>\
    <tr class='navbox-group'><th class='navbox-group-title'>The Barrows Brothers</th>\
    <td class='navbox-list'><ul><li><a href='/w/Ahrim'>Ahrim</a></li></ul></td></tr>\
    </tbody></table></td></tr>\
    <tr class='navbox-group'><th class='navbox-group-title'>God Wars Dungeon</th>\
    <td class='navbox-list'><ul><li><a href='/w/Kree%27arra'>Kree'arra</a></li>\
    <li><a href='https://example.com/'>Elsewhere</a></li></ul></td></tr>\
    <tr class='navbox-group'><th class='navbox-group-title'>Raids</th>\
    <td class='navbox-list'><table><tbody>\
    <tr class='navbox-group'><th class='navbox-group-title'>New raid</th>\
    <td class='navbox-list'><ul><li><a href='/w/New_raid'>Raid boss</a></li></ul></td></tr>\
    </tbody></table></td></tr>\
    <tr class='navbox-group'><th class='navbox-group-title'>New   category</th>\
    <td class='navbox-list'><ul><li><a href='/w/Another'>Another\n boss</a></li></ul></td></tr>\
    <tr class='navbox-group'><th class='navbox-group-title'>Empty</th></tr>\
    </tbody></table>";

fn entry<'a>(bosses: &'a [(String, Vec<String>)], name: &str) -> &'a Vec<String> {
    &bosses.iter().find(|(k, _)| k == name).unwrap().1
}

#[test]
fn parses_nested_categories_encounters_and_new_raids() {
    let bosses = parse_bosses(BOSSES_PAGE).unwrap();
    assert_eq!(entry(&bosses, "World bosses"), &["New boss", "The Barrows Brothers"]);
    assert_eq!(entry(&bosses, "God Wars Dungeon"), &["Kree'arra"]);
    assert_eq!(entry(&bosses, "Raids"), &["New raid"]);
    assert_eq!(entry(&bosses, "New category"), &["Another boss"]);
    assert!(!bosses.iter().flat_map(|(_, v)| v).any(|name| name == "Minion"));
}

#[test]
fn categories_come_sorted_and_entries_deduplicated() {
    let page = "<table data-navbox-name='Bosses'><tbody>\
    <tr class='navbox-group'><th class='navbox-group-title'>Zeta</th>\
    <td class='navbox-list'><ul><li><a href='/w/B'>B</a></li><li><a href='/w/A'>A</a></li>\
    <li><a href='/w/B'>B</a></li></ul></td></tr>\
    <tr class='navbox-group'><th class='navbox-group-title'>Alpha</th>\
    <td class='navbox-list'><ul><li><a href='/w/C'>C</a></li></ul></td></tr>\
    <tr class='navbox-group'><th class='navbox-group-title'>Zeta</th>\
    <td class='navbox-list'><ul><li><a href='/w/A'>A</a></li></ul></td></tr>\
    </tbody></table>";
    let bosses = parse_bosses(page).unwrap();
    assert_eq!(
        bosses,
        vec![
            ("Alpha".to_string(), vec!["C".to_string()]),
            ("Zeta".to_string(), vec!["A".to_string(), "B".to_string()]),
        ]
    );
}

#[test]
fn rejects_changed_or_incomplete_sources() {
    assert!(parse_bosses("<html>Unavailable</html>").is_err());
    assert!(parse_skills("<html>Unavailable</html>").is_err());
    let mut catalog = sample();
    catalog.skills.clear();
    assert!(catalog.validate().is_err());
}

#[test]
fn boss_table_errors_are_told_apart() {
    assert_eq!(parse_bosses("<p>moved</p>"), Err(CatalogError::BossTableMissing));
    assert_eq!(
        parse_bosses("<table data-navbox-name='Bosses'><tr><td>x</td></tr></table>"),
        Err(CatalogError::BossesMissing)
    );
}

#[test]
fn wiki_responses_are_read_from_parse_text() {
    let text = serde_json::to_string(BOSSES_PAGE).unwrap();
    let body = format!("{{\"parse\":{{\"title\":\"Template:Bosses\",\"text\":{text}}}}}");
    let bosses = bosses_from_wiki(body.as_bytes()).unwrap();
    assert_eq!(bosses.len(), 4);
    assert_eq!(bosses_from_wiki(b"not json"), Err(CatalogError::InvalidWikiResponse));
    assert_eq!(bosses_from_wiki(b"{\"parse\":{}}"), Err(CatalogError::WikiDataMissing));
    assert_eq!(skills_from_page(&[0xff, 0xfe]), Err(CatalogError::InvalidUtf8));
}

#[test]
fn validation_reports_the_first_failed_check() {
    assert_eq!(sample().validate(), Ok(()));
    let mut c = sample();
    c.skills.truncate(22);
    assert_eq!(c.validate(), Err(CatalogError::IncompleteSkillList));
    let mut c = sample();
    c.bosses.truncate(4);
    assert_eq!(c.validate(), Err(CatalogError::IncompleteBossCategories));
    let mut c = sample();
    for (_, v) in c.bosses.iter_mut() {
        v.truncate(6);
    }
    assert_eq!(c.validate(), Err(CatalogError::IncompleteBossList));
    let mut c = sample();
    c.bosses.push(("Zed".into(), vec![]));
    assert_eq!(c.validate(), Err(CatalogError::EmptyBossCategory));
    let mut c = sample();
    c.skills[3] = " \t ".into();
    assert_eq!(c.validate(), Err(CatalogError::InvalidEntry));
    let mut c = sample();
    c.bosses[2].1[1] = "Tab\there".into();
    assert_eq!(c.validate(), Err(CatalogError::InvalidEntry));
    let mut c = sample();
    c.bosses[5].0 = "é".repeat(101);
    assert_eq!(c.validate(), Err(CatalogError::InvalidEntry));
    let mut c = sample();
    c.bosses[5].0 = "é".repeat(100);
    assert_eq!(c.validate(), Ok(()));
    let mut c = sample();
    c.bosses.swap(0, 1);
    assert_eq!(c.validate(), Err(CatalogError::UnorderedCategories));
    let mut c = sample();
    c.bosses[1].0 = c.bosses[0].0.clone();
    assert_eq!(c.validate(), Err(CatalogError::UnorderedCategories));
}

#[test]
fn fetched_catalogues_are_checked_before_use() {
    let bad = || {
        let mut c = sample();
        c.bosses.reverse();
        Ok(c)
    };
    let stale = || Some(Cache { fetched_at: 0, catalog: sample() });
    let loaded = load(stale(), CACHE_AGE, false, false, bad, Ok(sample())).unwrap();
    assert_eq!(loaded.source, Source::Cache);
    assert_eq!(loaded.refresh_error, Some(CatalogError::UnorderedCategories));
    assert_eq!(
        load(stale(), CACHE_AGE, true, false, bad, Ok(sample())).err(),
        Some(CatalogError::UnorderedCategories)
    );
}

#[test]
fn fresh_and_offline_caches_do_not_fetch() {
    let now = 1_800_000_000;
    let cache = || Some(Cache { fetched_at: now, catalog: sample() });
    let loaded = load(cache(), now, false, false, never, Ok(sample())).unwrap();
    assert_eq!(loaded.source, Source::Cache);
    let loaded = load(cache(), now + 5 * CACHE_AGE, false, true, never, Ok(sample())).unwrap();
    assert_eq!(loaded.source, Source::Cache);
}

#[test]
fn failed_refresh_preserves_stale_cache() {
    let cache = || {
        let mut catalog = sample();
        catalog.skills.push("Future skill".into());
        Some(Cache { fetched_at: 0, catalog })
    };
    let offline = || Err(CatalogError::Fetch("Offline".into()));
    let loaded = load(cache(), 1_800_000_000, false, false, offline, Ok(sample()));
    assert!(skills_of(&loaded).contains(&"Future skill".into()));
    let loaded = loaded.unwrap();
    assert_eq!(loaded.source, Source::Cache);
    assert_eq!(loaded.refresh_error, Some(CatalogError::Fetch("Offline".into())));
    assert!(load(cache(), 1_800_000_000, true, false, offline, Ok(sample())).is_err());
}

#[test]
fn corrupt_cache_falls_back_offline_and_refresh_replaces_it() {
    let loaded = load(None, 5, false, true, never, Ok(sample())).unwrap();
    assert_eq!(loaded.source, Source::Bundled);
    let loaded = load(None, 5, true, false, || Ok(sample()), Ok(sample())).unwrap();
    assert_eq!(loaded.source, Source::Fetched);
}

#[test]
fn invalid_caches_are_ignored_and_bundled_data_is_checked() {
    let mut broken = sample();
    broken.skills.clear();
    let cache = Some(Cache { fetched_at: 10, catalog: broken });
    let loaded = load(cache, 10, false, true, never, Ok(sample())).unwrap();
    assert_eq!(loaded.source, Source::Bundled);
    let mut broken = sample();
    broken.bosses.clear();
    assert_eq!(
        load(None, 10, false, true, never, Ok(broken)).err(),
        Some(CatalogError::IncompleteBossCategories)
    );
    let stale = Some(Cache { fetched_at: 0, catalog: sample() });
    let loaded = load(stale, CACHE_AGE, false, false, || Ok(sample()), Ok(sample())).unwrap();
    assert_eq!(loaded.source, Source::Fetched);
}

#[test]
fn checked_catalogues_pass_validation() {
    let s = sample();
    assert!(checked_catalog(s.bosses, s.skills).is_ok());
    assert_eq!(
        checked_catalog(vec![], vec![]).err(),
        Some(CatalogError::IncompleteSkillList)
    );
}

#[test]
fn data_limit_is_four_mebibytes() {
    assert!(within_limit(MAX_DATA_SIZE, MAX_DATA_SIZE));
    assert!(!within_limit(MAX_DATA_SIZE + 1, MAX_DATA_SIZE));
    assert_eq!(MAX_DATA_SIZE, 4 * 1024 * 1024);
}

/// A Wiki response with `categories` categories of `per` bosses each.
fn wiki_body(categories: usize, per: usize) -> String {
    let mut html = String::from("<table data-navbox-name='Bosses'><tbody>");
    for c in 1..=categories {
        html.push_str(&format!(
            "<tr class='navbox-group'><th class='navbox-group-title'>Category {c}</th>\
             <td class='navbox-list'><ul>"
        ));
        for b in 1..=per {
            html.push_str(&format!("<li><a href='/w/B{c}_{b}'>Boss {c} {b:02}</a></li>"));
        }
        html.push_str("</ul></td></tr>");
    }
    html.push_str("</tbody></table>");
    let text = serde_json::to_string(&html).unwrap();
    format!("{{\"parse\":{{\"text\":{text}}}}}")
}

/// A HiScores page listing `n` skills.
fn hiscores_body(n: usize) -> String {
    let mut html = String::from("<div id='contentCategory'>");
    for id in 1..=n {
        html.push_str(&format!("<a href='overall?table={id}'>Skill {id:02}</a>"));
    }
    html.push_str("</div>");
    html
}

fn never_requested() -> Result<Vec<u8>, CatalogError> {
    panic!("Unexpected request")
}

#[test]
fn fetched_sources_make_a_checked_catalogue() {
    let wiki = wiki_body(6, 8);
    let page = || Ok(hiscores_body(24).into_bytes());
    let c = catalog_from_sources(wiki.as_bytes(), page).unwrap();
    assert_eq!(c.bosses.len(), 6);
    assert_eq!(c.bosses[0].0, "Category 1");
    assert_eq!(c.bosses[0].1.len(), 8);
    assert_eq!(c.skills.len(), 24);
    assert_eq!(c.validate(), Ok(()));
    assert_eq!(
        catalog_from_sources(wiki_body(4, 12).as_bytes(), page).err(),
        Some(CatalogError::IncompleteBossCategories)
    );
    assert_eq!(
        catalog_from_sources(b"not json", never_requested).err(),
        Some(CatalogError::InvalidWikiResponse)
    );
    assert_eq!(
        catalog_from_sources(wiki.as_bytes(), || Ok(vec![0xff])).err(),
        Some(CatalogError::InvalidUtf8)
    );
    assert_eq!(
        catalog_from_sources(wiki.as_bytes(), || Ok(hiscores_body(22).into_bytes())).err(),
        Some(CatalogError::SkillListMissing)
    );
    assert_eq!(
        catalog_from_sources(wiki.as_bytes(), || Err(CatalogError::Fetch("Offline".into()))).err(),
        Some(CatalogError::Fetch("Offline".into()))
    );
}

#[test]
fn every_category_parsed_has_bosses() {
    let bosses = parse_bosses(BOSSES_PAGE).unwrap();
    assert!(bosses.iter().all(|(_, v)| !v.is_empty()));
    assert!(!bosses.iter().any(|(k, _)| k == "Empty"));
}
