//! Reading the skill list from Jagex's HiScores page and the boss categories
//! from the OSRS Wiki's boss navigation table.

use vstd::prelude::*;
use crate::catalog::{
    categories, checked_catalog, strings, validation, Catalog, Categories, CatalogError, Strings,
};
use crate::ordered::{
    add_to_entry, append_entry, grows, increasing, insert_sorted, insert_string, keys,
    lemma_append_entry, lemma_append_grows, lemma_grows_refl, lemma_grows_trans,
    lemma_insert_sorted, lemma_lookup_at, lemma_sorted_set, lookup, sorted_set, to_sorted_set,
};
use crate::page::{
    compile, link_query, json_string_at, spec_attr, spec_element_name, spec_json_string_at,
    spec_link_query, spec_node_count, spec_prev_siblings, spec_select, spec_select_in,
    spec_selector_parses, spec_text, CssSelector, Page,
};
use crate::text::{
    all_digits, parse_unsigned, same, squeeze, squeezed, unsigned_value, utf8_text,
};

verus! {

/// The HiScores page; skill links are resolved against it.
pub const SKILLS_URL: &'static str = "https://secure.runescape.com/m=hiscore_oldschool/overall";

pub const SKILL_LINKS: &'static str = "#contentCategory a[href]";

pub const NAVBOX: &'static str = "table[data-navbox-name='Bosses']";

pub const ROWS: &'static str = ":scope > tbody > tr.navbox-group";

pub const HEADING: &'static str = ":scope > th.navbox-group-title";

pub const CONTENTS: &'static str = ":scope > td.navbox-list";

pub const NESTED: &'static str = ":scope > table";

pub const LINKS: &'static str = ":scope > ul > li > a[href^='/w/']";

pub type Pairs = Seq<(Seq<char>, Seq<char>)>;

// ---------------------------------------------------------------------------
// Skills
// ---------------------------------------------------------------------------

/// The value of the last pair with the given key (what collecting the pairs
/// into a map keeps).
pub open spec fn last_value(pairs: Pairs, key: Seq<char>) -> Option<Seq<char>>
    decreases pairs.len(),
{
    if pairs.len() == 0 {
        None
    } else if pairs.last().0 == key {
        Some(pairs.last().1)
    } else {
        last_value(pairs.drop_last(), key)
    }
}

/// A link names a skill when its `table` parameter is a positive `u32` and
/// its `category_type`, if any, is `0`.
pub open spec fn is_skill_query(pairs: Pairs) -> bool {
    let skill = match last_value(pairs, "table"@) {
        Some(id) => match unsigned_value(id, u32::MAX as nat) {
            Some(n) => n > 0,
            None => false,
        },
        None => false,
    };
    let activity = match last_value(pairs, "category_type"@) {
        Some(kind) => kind != "0"@,
        None => false,
    };
    skill && !activity
}

pub open spec fn link_href(page: Seq<char>, id: usize) -> Seq<char> {
    match spec_attr(page, id, "href"@) {
        Some(v) => v,
        None => seq![],
    }
}

/// The names of the skill links among `links`, as an ordered set; `None`
/// when some link does not resolve.
pub open spec fn skill_set(page: Seq<char>, links: Seq<usize>) -> Option<Strings>
    decreases links.len(),
{
    if links.len() == 0 {
        Some(seq![])
    } else {
        match skill_set(page, links.drop_last()) {
            None => None,
            Some(set) => {
                let id = links.last();
                match spec_link_query(SKILLS_URL@, link_href(page, id)) {
                    None => None,
                    Some(q) => Some(
                        if is_skill_query(q) {
                            insert_sorted(set, squeezed(spec_text(page, id)))
                        } else {
                            set
                        },
                    ),
                }
            },
        }
    }
}

/// Link `i` of `links` is a skill link (its `href` resolves against the
/// HiScores page and its query names a skill) whose text, whitespace
/// collapsed, is `name`.
pub open spec fn names_skill(page: Seq<char>, links: Seq<usize>, i: int, name: Seq<char>) -> bool {
    &&& 0 <= i < links.len()
    &&& spec_link_query(SKILLS_URL@, link_href(page, links[i])) matches Some(q) && is_skill_query(q)
    &&& squeezed(spec_text(page, links[i])) == name
}

/// The skill set of some links holds, in increasing order, exactly the names
/// of its skill links.
proof fn lemma_skill_set_members(page: Seq<char>, links: Seq<usize>)
    ensures
        skill_set(page, links) matches Some(set) ==> increasing(set) && forall|name: Seq<char>|
            #[trigger] set.contains(name) <==> exists|i: int| #[trigger]
                names_skill(page, links, i, name),
    decreases links.len(),
{
    if links.len() > 0 {
        let pre = links.drop_last();
        lemma_skill_set_members(page, pre);
        if let Some(set0) = skill_set(page, pre) {
            let id = links.last();
            if let Some(q) = spec_link_query(SKILLS_URL@, link_href(page, id)) {
                let x = squeezed(spec_text(page, id));
                let set = skill_set(page, links)->0;
                if is_skill_query(q) {
                    lemma_insert_sorted(set0, x);
                }
                assert forall|name: Seq<char>| #[trigger] set.contains(name) <==> exists|i: int|
                    #[trigger] names_skill(page, links, i, name) by {
                    if set0.contains(name) {
                        let i = choose|i: int| #[trigger] names_skill(page, pre, i, name);
                        assert(pre[i] == links[i]);
                        assert(names_skill(page, links, i, name));
                    }
                    if is_skill_query(q) && name == x {
                        assert(names_skill(page, links, links.len() - 1, name));
                    }
                    if exists|i: int| #[trigger] names_skill(page, links, i, name) {
                        let i = choose|i: int| #[trigger] names_skill(page, links, i, name);
                        if i < links.len() - 1 {
                            assert(pre[i] == links[i]);
                            assert(names_skill(page, pre, i, name));
                        }
                    }
                }
            }
        }
    }
}

/// What the skill list of a HiScores page is.
pub open spec fn skills_of(html: Seq<char>) -> Result<Strings, CatalogError> {
    match spec_select(html, SKILL_LINKS@) {
        None => Err(CatalogError::InvalidSelector),
        Some(links) => match skill_set(html, links) {
            None => Err(CatalogError::InvalidLink),
            Some(set) => if set.len() < 23 {
                Err(CatalogError::SkillListMissing)
            } else {
                Ok(set)
            },
        },
    }
}

fn last_value_of(pairs: &Vec<(String, String)>, key: &str) -> (r: Option<String>)
    ensures
        match r {
            Some(v) => last_value(pairs@.map_values(|p: (String, String)| (p.0@, p.1@)), key@)
                == Some(v@),
            None => last_value(pairs@.map_values(|p: (String, String)| (p.0@, p.1@)), key@) is None,
        },
{
    let ghost all = pairs@.map_values(|p: (String, String)| (p.0@, p.1@));
    let mut i: usize = pairs.len();
    assert(all.take(i as int) =~= all);
    while i > 0
        invariant
            i <= pairs.len(),
            all == pairs@.map_values(|p: (String, String)| (p.0@, p.1@)),
            last_value(all, key@) == last_value(all.take(i as int), key@),
        decreases i,
    {
        proof {
            assert(all.take(i as int).drop_last() =~= all.take(i - 1));
        }
        if same(pairs[i - 1].0.as_str(), key) {
            return Some(pairs[i - 1].1.clone());
        }
        i = i - 1;
    }
    None
}

fn is_skill_link(pairs: &Vec<(String, String)>) -> (r: bool)
    ensures
        r == is_skill_query(pairs@.map_values(|p: (String, String)| (p.0@, p.1@))),
{
    let skill = match last_value_of(pairs, "table") {
        Some(id) => match parse_unsigned(id.as_str(), 4294967295) {
            Some(n) => n > 0,
            None => false,
        },
        None => false,
    };
    let activity = match last_value_of(pairs, "category_type") {
        Some(kind) => !same(kind.as_str(), "0"),
        None => false,
    };
    skill && !activity
}

/// The skills of a HiScores page: the texts (whitespace collapsed) of its
/// skill links, sorted and each once; at least 23 of them.
pub fn parse_skills(html: &str) -> (r: Result<Vec<String>, CatalogError>)
    ensures
        match r {
            Ok(v) => skills_of(html@) == Ok::<Strings, CatalogError>(strings(v@)),
            Err(e) => skills_of(html@) == Err::<Strings, CatalogError>(e),
        },
        r matches Ok(v) ==> increasing(strings(v@)) && v@.len() >= 23,
        // The skills are exactly the texts of the page's skill links.
        r matches Ok(v) ==> spec_select(html@, SKILL_LINKS@) matches Some(links) && forall|
            name: Seq<char>,
        | #[trigger] strings(v@).contains(name) <==> exists|i: int| #[trigger]
            names_skill(html@, links, i, name),
{
    let page = Page::parse(html);
    let links = match page.select(SKILL_LINKS) {
        Ok(l) => l,
        Err(_) => return Err(CatalogError::InvalidSelector),
    };
    let mut skills: Vec<String> = Vec::new();
    let mut i: usize = 0;
    assert(links@.take(0) =~= Seq::<usize>::empty());
    while i < links.len()
        invariant
            i <= links.len(),
            page@ == html@,
            spec_select(html@, SKILL_LINKS@) == Some(links@),
            skill_set(html@, links@.take(i as int)) == Some(strings(skills@)),
            increasing(strings(skills@)),
        decreases links.len() - i,
    {
        let id = links[i];
        assert(links@.take(i + 1).drop_last() =~= links@.take(i as int));
        let href = match page.attr(id, "href") {
            Some(v) => v,
            None => String::new(),
        };
        let pairs = match link_query(SKILLS_URL, href.as_str()) {
            Some(p) => p,
            None => {
                proof {
                    lemma_skill_set_fails(html@, links@, i as int);
                }
                return Err(CatalogError::InvalidLink);
            },
        };
        if is_skill_link(&pairs) {
            let name = squeeze(page.text(id).as_str());
            proof {
                lemma_insert_sorted(strings(skills@), name@);
            }
            insert_string(&mut skills, name);
        }
        i = i + 1;
    }
    assert(links@.take(i as int) =~= links@);
    proof {
        lemma_skill_set_members(html@, links@);
    }
    if skills.len() < 23 {
        return Err(CatalogError::SkillListMissing);
    }
    Ok(skills)
}

proof fn lemma_skill_set_fails(page: Seq<char>, links: Seq<usize>, i: int)
    requires
        0 <= i < links.len(),
        spec_link_query(SKILLS_URL@, link_href(page, links[i])) is None,
    ensures
        skill_set(page, links) is None,
    decreases links.len(),
{
    if i < links.len() - 1 {
        assert(links.drop_last()[i] == links[i]);
        lemma_skill_set_fails(page, links.drop_last(), i);
    }
}

// ---------------------------------------------------------------------------
// Bosses
// ---------------------------------------------------------------------------

/// Categories whose rows name one grouped encounter rather than list bosses.
pub open spec fn grouped(parent: Seq<char>, category: Seq<char>) -> bool {
    ||| parent == "Raids"@
    ||| category == "The Barrows Brothers"@
    ||| category == "The Dagannoth Kings"@
    ||| category == "Moons of Peril"@
}

/// Whether an earlier sibling of node `id` is an `a` element (so the link at
/// `id` names a variant of the encounter, not the encounter).
pub open spec fn follows_link(page: Seq<char>, id: usize) -> bool {
    let prev = spec_prev_siblings(page, id);
    exists|j: int| 0 <= j < prev.len() && spec_element_name(page, #[trigger] prev[j]) == Some("a"@)
}

/// The texts of the links that name encounters.
pub open spec fn encounter_names(page: Seq<char>, links: Seq<usize>) -> Strings
    decreases links.len(),
{
    if links.len() == 0 {
        seq![]
    } else {
        let rest = encounter_names(page, links.drop_last());
        if follows_link(page, links.last()) {
            rest
        } else {
            rest.push(squeezed(spec_text(page, links.last())))
        }
    }
}

pub open spec fn row_count(page: Seq<char>, table: usize) -> int {
    spec_select_in(page, table, ROWS@).len() as int
}

/// The category of a row: its heading's text, whitespace collapsed, or its
/// parent's name when it has no heading.
pub open spec fn row_category(page: Seq<char>, row: usize, parent: Seq<char>) -> Seq<char> {
    let heads = spec_select_in(page, row, HEADING@);
    if heads.len() > 0 {
        squeezed(spec_text(page, heads[0]))
    } else {
        parent
    }
}

/// Walks the rows of a navigation table from row `k` on, adding to `m`: a row
/// without a cell adds nothing, a row of a grouped category adds its category
/// to its parent, a row whose cell holds a table has that table walked under
/// its category, and any other row adds its encounter links to its category.
/// (A nested table always comes after its row's table in the walk; the
/// comparison below only makes that explicit for the measure.)
pub open spec fn walk(page: Seq<char>, table: usize, parent: Seq<char>, k: int, m: Categories)
    -> Categories
    decreases spec_node_count(page) - table, row_count(page, table) - k,
{
    let rows = spec_select_in(page, table, ROWS@);
    if k < 0 || k >= rows.len() {
        m
    } else {
        let row = rows[k];
        let category = row_category(page, row, parent);
        let cells = spec_select_in(page, row, CONTENTS@);
        if cells.len() == 0 {
            walk(page, table, parent, k + 1, m)
        } else if grouped(parent, category) {
            walk(page, table, parent, k + 1, append_entry(m, parent, seq![category]))
        } else {
            let nested = spec_select_in(page, cells[0], NESTED@);
            if nested.len() > 0 {
                let child = nested[0];
                let m2 = if table < child < spec_node_count(page) {
                    walk(page, child, category, 0, m)
                } else {
                    m
                };
                walk(page, table, parent, k + 1, m2)
            } else {
                let names = encounter_names(page, spec_select_in(page, cells[0], LINKS@));
                walk(
                    page,
                    table,
                    parent,
                    k + 1,
                    if names.len() > 0 {
                        append_entry(m, category, names)
                    } else {
                        m
                    },
                )
            }
        }
    }
}

proof fn lemma_walk_grows(page: Seq<char>, table: usize, parent: Seq<char>, k: int, m: Categories)
    requires
        increasing(keys(m)),
    ensures
        grows(m, walk(page, table, parent, k, m)),
        increasing(keys(walk(page, table, parent, k, m))),
    decreases spec_node_count(page) - table, row_count(page, table) - k,
{
    lemma_grows_refl(m);
    let rows = spec_select_in(page, table, ROWS@);
    if 0 <= k < rows.len() {
        let row = rows[k];
        let category = row_category(page, row, parent);
        let cells = spec_select_in(page, row, CONTENTS@);
        if cells.len() == 0 {
            lemma_walk_grows(page, table, parent, k + 1, m);
        } else if grouped(parent, category) {
            let m1 = append_entry(m, parent, seq![category]);
            lemma_append_entry(m, parent, seq![category]);
            lemma_append_grows(m, parent, seq![category]);
            lemma_walk_grows(page, table, parent, k + 1, m1);
            lemma_grows_trans(m, m1, walk(page, table, parent, k + 1, m1));
        } else {
            let nested = spec_select_in(page, cells[0], NESTED@);
            if nested.len() > 0 {
                let child = nested[0];
                let m1 = if table < child < spec_node_count(page) {
                    lemma_walk_grows(page, child, category, 0, m);
                    walk(page, child, category, 0, m)
                } else {
                    m
                };
                lemma_walk_grows(page, table, parent, k + 1, m1);
                lemma_grows_trans(m, m1, walk(page, table, parent, k + 1, m1));
            } else {
                let names = encounter_names(page, spec_select_in(page, cells[0], LINKS@));
                if names.len() > 0 {
                    let m1 = append_entry(m, category, names);
                    lemma_append_entry(m, category, names);
                    lemma_append_grows(m, category, names);
                    lemma_walk_grows(page, table, parent, k + 1, m1);
                    lemma_grows_trans(m, m1, walk(page, table, parent, k + 1, m1));
                } else {
                    lemma_walk_grows(page, table, parent, k + 1, m);
                }
            }
        }
    }
}

/// Walking a navigation table only adds to what was collected: no category
/// is dropped, each keeps its entries in order as a prefix of its new list,
/// every new category has at least one entry, and the categories stay in
/// increasing order.
pub proof fn law_walk_only_appends(page: Seq<char>, table: usize, parent: Seq<char>, m: Categories)
    requires
        increasing(keys(m)),
    ensures
        grows(m, walk(page, table, parent, 0, m)),
        increasing(keys(walk(page, table, parent, 0, m))),
{
    lemma_walk_grows(page, table, parent, 0, m);
}

/// A row with no `td.navbox-list` cell adds nothing.
pub proof fn law_row_without_cell_adds_nothing(
    page: Seq<char>,
    table: usize,
    parent: Seq<char>,
    k: int,
    m: Categories,
)
    requires
        0 <= k < row_count(page, table),
        spec_select_in(page, spec_select_in(page, table, ROWS@)[k], CONTENTS@).len() == 0,
    ensures
        walk(page, table, parent, k, m) == walk(page, table, parent, k + 1, m),
{
}

/// A row of a grouped category (any row under `Raids`, and the rows titled
/// `The Barrows Brothers`, `The Dagannoth Kings` or `Moons of Peril`) adds
/// only its category's name to its parent's entries (the parent's entry is
/// created if missing); no link or nested table in its cell is read.
pub proof fn law_grouped_row_adds_its_name(
    page: Seq<char>,
    table: usize,
    parent: Seq<char>,
    k: int,
    m: Categories,
)
    requires
        0 <= k < row_count(page, table),
        spec_select_in(page, spec_select_in(page, table, ROWS@)[k], CONTENTS@).len() > 0,
        grouped(parent, row_category(page, spec_select_in(page, table, ROWS@)[k], parent)),
    ensures
        walk(page, table, parent, k, m) == walk(
            page,
            table,
            parent,
            k + 1,
            append_entry(
                m,
                parent,
                seq![row_category(page, spec_select_in(page, table, ROWS@)[k], parent)],
            ),
        ),
{
}

/// A row (not of a grouped category) whose cell holds a table contributes
/// exactly what walking that table under the row's category adds (its
/// untitled rows landing in that category); the cell's own links are not read.
pub proof fn law_nested_table_is_walked_under_its_category(
    page: Seq<char>,
    table: usize,
    parent: Seq<char>,
    k: int,
    m: Categories,
    cell: usize,
    child: usize,
)
    requires
        0 <= k < row_count(page, table),
        spec_select_in(page, spec_select_in(page, table, ROWS@)[k], CONTENTS@).len() > 0,
        cell == spec_select_in(page, spec_select_in(page, table, ROWS@)[k], CONTENTS@)[0],
        !grouped(parent, row_category(page, spec_select_in(page, table, ROWS@)[k], parent)),
        spec_select_in(page, cell, NESTED@).len() > 0,
        child == spec_select_in(page, cell, NESTED@)[0],
        table < child < spec_node_count(page),
    ensures
        walk(page, table, parent, k, m) == walk(
            page,
            table,
            parent,
            k + 1,
            walk(
                page,
                child,
                row_category(page, spec_select_in(page, table, ROWS@)[k], parent),
                0,
                m,
            ),
        ),
{
}

/// Every row under `Raids`, and every row titled `The Barrows Brothers`,
/// `The Dagannoth Kings` or `Moons of Peril`, that has a cell adds exactly
/// its title to its parent's entries (creating the parent's entry if
/// missing) and makes no category of its own, whatever links or tables its
/// cell holds.
pub proof fn law_grouped_encounters_join_their_parent(
    page: Seq<char>,
    table: usize,
    parent: Seq<char>,
    k: int,
    m: Categories,
)
    requires
        0 <= k < row_count(page, table),
        spec_select_in(page, spec_select_in(page, table, ROWS@)[k], CONTENTS@).len() > 0,
        ({
            let title = row_category(page, spec_select_in(page, table, ROWS@)[k], parent);
            ||| parent == "Raids"@
            ||| title == "The Barrows Brothers"@
            ||| title == "The Dagannoth Kings"@
            ||| title == "Moons of Peril"@
        }),
    ensures
        walk(page, table, parent, k, m) == walk(
            page,
            table,
            parent,
            k + 1,
            append_entry(
                m,
                parent,
                seq![row_category(page, spec_select_in(page, table, ROWS@)[k], parent)],
            ),
        ),
{
}

/// Any other row with a cell is a category of its own: a nested table is
/// walked under the row's title, and otherwise the row's encounter links
/// (when there are any) are added under that title.
pub proof fn law_other_rows_are_categories(
    page: Seq<char>,
    table: usize,
    parent: Seq<char>,
    k: int,
    m: Categories,
)
    requires
        0 <= k < row_count(page, table),
        spec_select_in(page, spec_select_in(page, table, ROWS@)[k], CONTENTS@).len() > 0,
        parent != "Raids"@,
        ({
            let title = row_category(page, spec_select_in(page, table, ROWS@)[k], parent);
            &&& title != "The Barrows Brothers"@
            &&& title != "The Dagannoth Kings"@
            &&& title != "Moons of Peril"@
        }),
    ensures
        ({
            let row = spec_select_in(page, table, ROWS@)[k];
            let title = row_category(page, row, parent);
            let cell = spec_select_in(page, row, CONTENTS@)[0];
            let nested = spec_select_in(page, cell, NESTED@);
            let names = encounter_names(page, spec_select_in(page, cell, LINKS@));
            &&& nested.len() > 0 && table < nested[0] < spec_node_count(page) ==> walk(
                page,
                table,
                parent,
                k,
                m,
            ) == walk(page, table, parent, k + 1, walk(page, nested[0], title, 0, m))
            &&& nested.len() == 0 && names.len() > 0 ==> walk(page, table, parent, k, m) == walk(
                page,
                table,
                parent,
                k + 1,
                append_entry(m, title, names),
            )
            &&& nested.len() == 0 && names.len() == 0 ==> walk(page, table, parent, k, m) == walk(
                page,
                table,
                parent,
                k + 1,
                m,
            )
        }),
{
}

/// A link that comes after another `a` element in its list item names a
/// variant of the encounter and adds nothing; any other link adds its text,
/// whitespace collapsed.
pub proof fn law_variant_links_are_dropped(page: Seq<char>, links: Seq<usize>, id: usize)
    ensures
        (exists|j: int|
            0 <= j < spec_prev_siblings(page, id).len() && spec_element_name(
                page,
                #[trigger] spec_prev_siblings(page, id)[j],
            ) == Some(seq!['a'])) ==> encounter_names(page, links.push(id)) == encounter_names(
            page,
            links,
        ),
        (forall|j: int|
            0 <= j < spec_prev_siblings(page, id).len() ==> spec_element_name(
                page,
                #[trigger] spec_prev_siblings(page, id)[j],
            ) != Some(seq!['a'])) ==> encounter_names(page, links.push(id)) == encounter_names(
            page,
            links,
        ).push(squeezed(spec_text(page, id))),
{
    reveal_strlit("a");
    assert("a"@ =~= seq!['a']);
    assert(links.push(id).drop_last() =~= links);
}

/// A link counts as a skill when the last `table` value of its query is a
/// number from 1 to `u32::MAX` (digits, an optional leading `+`) and it has
/// no `category_type` other than `0`: Overall (`table=0`) and activities
/// (`category_type` other than `0`) are left out.
pub proof fn law_skill_links(pairs: Pairs, id: Seq<char>)
    ensures
        last_value(pairs, "table"@) == Some(seq!['0']) ==> !is_skill_query(pairs),
        (last_value(pairs, "category_type"@) matches Some(kind) && kind != seq!['0'])
            ==> !is_skill_query(pairs),
        last_value(pairs, "table"@) == Some(id) && id.len() > 0 && id[0] != '+' && all_digits(id)
            && 1 <= crate::text::digits_value(id) <= 4294967295 && (last_value(
            pairs,
            "category_type"@,
        ) is None || last_value(pairs, "category_type"@) == Some(seq!['0']))
            ==> is_skill_query(pairs),
{
    reveal_strlit("0");
    assert("0"@ =~= seq!['0']);
    let zero = seq!['0'];
    assert(zero.drop_last() =~= Seq::<char>::empty());
    assert(zero.last() == '0');
    assert(('0' as u32) == 0x30);
    assert(crate::text::digits_value(Seq::<char>::empty()) == 0);
    assert(crate::text::digits_value(zero) == 0);
}

/// Each category's bosses sorted, each once.
pub open spec fn sort_entries(m: Categories) -> Categories {
    m.map_values(|e: (Seq<char>, Strings)| (e.0, sorted_set(e.1)))
}

/// Whether the selectors that walk a navigation table's rows all parse.
pub open spec fn row_selectors_parse() -> bool {
    &&& spec_selector_parses(ROWS@)
    &&& spec_selector_parses(HEADING@)
    &&& spec_selector_parses(CONTENTS@)
    &&& spec_selector_parses(NESTED@)
    &&& spec_selector_parses(LINKS@)
}

/// What the boss categories of a Wiki boss navigation page are.
pub open spec fn bosses_of(html: Seq<char>) -> Result<Categories, CatalogError> {
    match spec_select(html, NAVBOX@) {
        None => Err(CatalogError::InvalidSelector),
        Some(tables) => if tables.len() == 0 {
            Err(CatalogError::BossTableMissing)
        } else if !row_selectors_parse() {
            Err(CatalogError::InvalidSelector)
        } else {
            let m = walk(html, tables[0], seq![], 0, seq![]);
            if m.len() == 0 {
                Err(CatalogError::BossesMissing)
            } else {
                Ok(sort_entries(m))
            }
        },
    }
}

fn is_grouped(parent: &String, category: &String) -> (r: bool)
    ensures
        r == grouped(parent@, category@),
{
    same(parent.as_str(), "Raids") || same(category.as_str(), "The Barrows Brothers") || same(
        category.as_str(),
        "The Dagannoth Kings",
    ) || same(category.as_str(), "Moons of Peril")
}

fn after_link(page: &Page, id: usize) -> (r: bool)
    ensures
        r == follows_link(page@, id),
{
    let prev = page.prev_siblings(id);
    let mut j: usize = 0;
    while j < prev.len()
        invariant
            j <= prev.len(),
            prev@ == spec_prev_siblings(page@, id),
            forall|i: int| 0 <= i < j ==> spec_element_name(page@, #[trigger] prev@[i]) != Some(
                "a"@,
            ),
        decreases prev.len() - j,
    {
        match page.element_name(prev[j]) {
            Some(name) => {
                if same(name.as_str(), "a") {
                    return true;
                }
            },
            None => {},
        }
        j = j + 1;
    }
    false
}

fn encounters(page: &Page, links: &Vec<usize>) -> (r: Vec<String>)
    ensures
        strings(r@) == encounter_names(page@, links@),
{
    let mut r: Vec<String> = Vec::new();
    let mut i: usize = 0;
    assert(links@.take(0) =~= Seq::<usize>::empty());
    while i < links.len()
        invariant
            i <= links.len(),
            strings(r@) == encounter_names(page@, links@.take(i as int)),
        decreases links.len() - i,
    {
        assert(links@.take(i + 1).drop_last() =~= links@.take(i as int));
        let id = links[i];
        if !after_link(page, id) {
            let name = squeeze(page.text(id).as_str());
            r.push(name);
            assert(strings(r@) =~= encounter_names(page@, links@.take(i as int)).push(
                squeezed(spec_text(page@, id)),
            ));
        }
        i = i + 1;
    }
    assert(links@.take(i as int) =~= links@);
    r
}

/// The parsed selectors that walk a navigation table's rows.
struct RowSelectors {
    rows: CssSelector,
    heading: CssSelector,
    contents: CssSelector,
    nested: CssSelector,
    links: CssSelector,
}

impl RowSelectors {
    spec fn parsed(&self) -> bool {
        &&& self.rows@ == ROWS@
        &&& self.heading@ == HEADING@
        &&& self.contents@ == CONTENTS@
        &&& self.nested@ == NESTED@
        &&& self.links@ == LINKS@
    }
}

/// The row selectors, when they all parse.
fn row_selectors() -> (r: Option<RowSelectors>)
    ensures
        r is Some <==> row_selectors_parse(),
        r matches Some(s) ==> s.parsed(),
{
    let rows = match compile(ROWS) {
        Some(s) => s,
        None => return None,
    };
    let heading = match compile(HEADING) {
        Some(s) => s,
        None => return None,
    };
    let contents = match compile(CONTENTS) {
        Some(s) => s,
        None => return None,
    };
    let nested = match compile(NESTED) {
        Some(s) => s,
        None => return None,
    };
    let links = match compile(LINKS) {
        Some(s) => s,
        None => return None,
    };
    Some(RowSelectors { rows, heading, contents, nested, links })
}

/// Walks the rows of the navigation table `table` (see `walk`), adding to
/// `bosses`.
fn parse_groups(
    page: &Page,
    table: usize,
    parent: &String,
    bosses: &mut Vec<(String, Vec<String>)>,
    sel: &RowSelectors,
)
    requires
        sel.parsed(),
    ensures
        categories(final(bosses)@) == walk(page@, table, parent@, 0, categories(old(bosses)@)),
    decreases spec_node_count(page@) - table,
{
    let ghost start = categories(bosses@);
    let rows = page.select_in(table, &sel.rows);
    let mut k: usize = 0;
    while k < rows.len()
        invariant
            k <= rows.len(),
            sel.parsed(),
            start == categories(old(bosses)@),
            spec_select_in(page@, table, ROWS@) == rows@,
            forall|i: int| 0 <= i < rows@.len() ==> table < #[trigger] rows@[i] < spec_node_count(page@),
            walk(page@, table, parent@, 0, start) == walk(page@, table, parent@, k as int, categories(bosses@)),
        decreases rows.len() - k,
    {
        let row = rows[k];
        let heads = page.select_in(row, &sel.heading);
        let category = if heads.len() > 0 {
            squeeze(page.text(heads[0]).as_str())
        } else {
            parent.clone()
        };
        assert(category@ == row_category(page@, row, parent@));
        let cells = page.select_in(row, &sel.contents);
        if cells.len() == 0 {
            k = k + 1;
            continue;
        }
        if is_grouped(parent, &category) {
            let mut one: Vec<String> = Vec::new();
            one.push(category);
            assert(strings(one@) =~= seq![category@]);
            add_to_entry(bosses, parent.clone(), one);
            k = k + 1;
            continue;
        }
        let cell = cells[0];
        let nested = page.select_in(cell, &sel.nested);
        if nested.len() > 0 {
            let child = nested[0];
            parse_groups(page, child, &category, bosses, sel);
            k = k + 1;
            continue;
        }
        let links = page.select_in(cell, &sel.links);
        let names = encounters(page, &links);
        if names.len() > 0 {
            add_to_entry(bosses, category, names);
        }
        k = k + 1;
    }
}

/// The boss categories of a Wiki boss navigation page, each category's
/// encounters sorted and each once.
pub fn parse_bosses(html: &str) -> (r: Result<Vec<(String, Vec<String>)>, CatalogError>)
    ensures
        match r {
            Ok(b) => bosses_of(html@) == Ok::<Categories, CatalogError>(categories(b@)),
            Err(e) => bosses_of(html@) == Err::<Categories, CatalogError>(e),
        },
        r matches Ok(b) ==> b@.len() > 0 && increasing(keys(categories(b@))) && forall|i: int|
            0 <= i < b@.len() ==> #[trigger] increasing(categories(b@)[i].1)
                && categories(b@)[i].1.len() > 0,
{
    let page = Page::parse(html);
    let tables = match page.select(NAVBOX) {
        Ok(t) => t,
        Err(_) => return Err(CatalogError::InvalidSelector),
    };
    if tables.len() == 0 {
        return Err(CatalogError::BossTableMissing);
    }
    let sel = match row_selectors() {
        Some(s) => s,
        None => return Err(CatalogError::InvalidSelector),
    };
    let mut bosses: Vec<(String, Vec<String>)> = Vec::new();
    let top = String::new();
    assert(categories(bosses@) =~= Seq::<(Seq<char>, Strings)>::empty());
    parse_groups(&page, tables[0], &top, &mut bosses, &sel);
    if bosses.len() == 0 {
        return Err(CatalogError::BossesMissing);
    }
    let ghost walked = categories(bosses@);
    proof {
        let empty = Seq::<(Seq<char>, Strings)>::empty();
        assert(keys(empty) =~= Seq::<Seq<char>>::empty());
        lemma_walk_grows(page@, tables@[0], top@, 0, empty);
        assert(keys(sort_entries(walked)) =~= keys(walked));
        assert forall|i: int| 0 <= i < walked.len() implies #[trigger] increasing(
            sort_entries(walked)[i].1,
        ) && sort_entries(walked)[i].1.len() > 0 by {
            lemma_sorted_set(walked[i].1);
            lemma_lookup_at(walked, i);
            assert(crate::ordered::grows_at(empty, walked, walked[i].0));
            assert(lookup(empty, walked[i].0) is None);
            assert(walked[i].1.contains(walked[i].1[0]));
            assert(sort_entries(walked)[i].1.contains(walked[i].1[0]));
        }
    }
    let mut sorted: Vec<(String, Vec<String>)> = Vec::new();
    let mut i: usize = 0;
    while i < bosses.len()
        invariant
            i <= bosses.len(),
            walked == categories(bosses@),
            categories(sorted@) =~= sort_entries(walked).take(i as int),
        decreases bosses.len() - i,
    {
        let entry = to_sorted_set(&bosses[i].1);
        let name = bosses[i].0.clone();
        let ghost before = categories(sorted@);
        sorted.push((name, entry));
        assert(categories(sorted@) =~= before.push(sort_entries(walked)[i as int]));
        assert(sort_entries(walked).take(i + 1) =~= sort_entries(walked).take(i as int).push(
            sort_entries(walked)[i as int],
        ));
        i = i + 1;
    }
    assert(sort_entries(walked).take(i as int) =~= sort_entries(walked));
    Ok(sorted)
}

/// What the boss categories in a Wiki `action=parse` JSON response are.
pub open spec fn wiki_bosses(body: Seq<u8>) -> Result<Categories, CatalogError> {
    match spec_json_string_at(body, "parse"@, "text"@) {
        None => Err(CatalogError::InvalidWikiResponse),
        Some(None) => Err(CatalogError::WikiDataMissing),
        Some(Some(html)) => bosses_of(html),
    }
}

/// What the skill list in a HiScores page body is.
pub open spec fn page_skills(body: Seq<u8>) -> Result<Strings, CatalogError> {
    if !vstd::utf8::valid_utf8(body) {
        Err(CatalogError::InvalidUtf8)
    } else {
        skills_of(vstd::utf8::decode_utf8(body))
    }
}

/// The boss categories of the Wiki's `Template:Bosses` page, from the JSON
/// body of its `action=parse` response.
pub fn bosses_from_wiki(body: &[u8]) -> (r: Result<Vec<(String, Vec<String>)>, CatalogError>)
    ensures
        match r {
            Ok(b) => wiki_bosses(body@) == Ok::<Categories, CatalogError>(categories(b@)),
            Err(e) => wiki_bosses(body@) == Err::<Categories, CatalogError>(e),
        },
{
    match json_string_at(body, "parse", "text") {
        Err(_) => Err(CatalogError::InvalidWikiResponse),
        Ok(None) => Err(CatalogError::WikiDataMissing),
        Ok(Some(html)) => parse_bosses(html.as_str()),
    }
}

/// The skill list of the HiScores page, from its body.
pub fn skills_from_page(body: &[u8]) -> (r: Result<Vec<String>, CatalogError>)
    ensures
        match r {
            Ok(v) => page_skills(body@) == Ok::<Strings, CatalogError>(strings(v@)),
            Err(e) => page_skills(body@) == Err::<Strings, CatalogError>(e),
        },
{
    match utf8_text(body) {
        None => Err(CatalogError::InvalidUtf8),
        Some(text) => parse_skills(text.as_str()),
    }
}

/// The catalogue of the bosses `b` and the skills of a HiScores reply `got`
/// (its body, or why it could not be had), when together they pass
/// `validate`; else the first error met.
pub open spec fn with_skills(b: Categories, got: Result<Vec<u8>, CatalogError>) -> Result<
    (Categories, Strings),
    CatalogError,
> {
    match got {
        Err(e) => Err(e),
        Ok(body) => match page_skills(body@) {
            Err(e) => Err(e),
            Ok(k) => match validation((b, k)) {
                Ok(()) => Ok((b, k)),
                Err(e) => Err(e),
            },
        },
    }
}

/// Whether a catalogue result is the one `expected` describes.
pub open spec fn gives(r: Result<Catalog, CatalogError>, expected: Result<(Categories, Strings), CatalogError>) -> bool {
    match r {
        Ok(c) => expected == Ok::<(Categories, Strings), CatalogError>(c@),
        Err(e) => expected == Err::<(Categories, Strings), CatalogError>(e),
    }
}

/// The catalogue fetched from the two sources: the bosses of the Wiki's
/// `action=parse` response body `wiki`, then, only once those were read, the
/// skills of the HiScores page that `hiscores` fetches; it always passes
/// `validate`. The first error met is returned.
pub fn catalog_from_sources<F>(wiki: &[u8], hiscores: F) -> (r: Result<Catalog, CatalogError>) where
    F: FnOnce() -> Result<Vec<u8>, CatalogError>,

    requires
        call_requires(hiscores, ()),
    ensures
        wiki_bosses(wiki@) matches Err(e) ==> r == Err::<Catalog, CatalogError>(e),
        wiki_bosses(wiki@) matches Ok(b) ==> exists|got: Result<Vec<u8>, CatalogError>|
            #[trigger] call_ensures(hiscores, (), got) && gives(r, with_skills(b, got)),
        r matches Ok(c) ==> validation(c@) is Ok,
{
    let bosses = match bosses_from_wiki(wiki) {
        Ok(b) => b,
        Err(e) => return Err(e),
    };
    let got = hiscores();
    let ghost reply = got;
    assert(call_ensures(hiscores, (), reply));
    let body = match got {
        Ok(body) => body,
        Err(e) => return Err(e),
    };
    let skills = match skills_from_page(body.as_slice()) {
        Ok(k) => k,
        Err(e) => return Err(e),
    };
    checked_catalog(bosses, skills)
}

} // verus!
