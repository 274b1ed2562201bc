//! Choosing a random boss or skill, reading category exclusions, and the
//! decisions of the command line and the interactive menu.

use vstd::prelude::*;
use rand::seq::IndexedRandom;
use crate::catalog::{boss_total, categories, strings, Catalog, Categories, Strings};
use crate::text::{
    eq_ignore_case, join, parse_unsigned, same, same_ignoring_ascii_case, split_words,
    unsigned_value, words,
};

verus! {

/// Why nothing was chosen or a choice was refused.
#[derive(Debug, PartialEq, Eq)]
pub enum ChooseError {
    NoSkills,
    UnknownCategory(String),
    AllCategoriesExcluded,
    NoBossesInCategory,
    InvalidCategoryNumber,
    CategoryNumberOutOfRange,
}

/// `IndexedRandom::choose` with the thread's generator: one of the items, or
/// `None` when there are none. Which item comes back is left to chance.
#[verifier::external_body]
fn pick<T>(items: &[T]) -> (r: Option<&T>)
    ensures
        r is None <==> items@.len() == 0,
        r matches Some(x) ==> items@.contains(*x),
{
    items.choose(&mut rand::rng())
}

/// A random skill of the catalogue.
pub fn generate_skill(catalog: &Catalog) -> (r: Result<String, ChooseError>)
    ensures
        match r {
            Ok(s) => catalog@.1.contains(s@),
            Err(e) => e == ChooseError::NoSkills && catalog@.1.len() == 0,
        },
        r is Ok <==> catalog@.1.len() > 0,
{
    match pick(catalog.skills.as_slice()) {
        Some(s) => {
            proof {
                let k = choose|k: int| 0 <= k < catalog.skills@.len() && catalog.skills@[k] == *s;
                assert(catalog@.1[k] == s@);
            }
            Ok(s.clone())
        },
        None => Err(ChooseError::NoSkills),
    }
}

/// Whether `name` is one of the excluded category names, ignoring ASCII case.
pub open spec fn is_excluded(name: Seq<char>, exclusions: Strings) -> bool {
    exists|j: int| 0 <= j < exclusions.len() && same_ignoring_ascii_case(name, #[trigger] exclusions[j])
}

/// Whether `excluded` names some category, ignoring ASCII case.
pub open spec fn names_category(excluded: Seq<char>, b: Categories) -> bool {
    exists|i: int| 0 <= i < b.len() && same_ignoring_ascii_case(#[trigger] b[i].0, excluded)
}

/// The first exclusion that names no category.
pub open spec fn first_unknown(exclusions: Strings, b: Categories) -> Option<int> {
    if exists|j: int| 0 <= j < exclusions.len() && !names_category(#[trigger] exclusions[j], b) {
        Some(
            choose|j: int|
                0 <= j < exclusions.len() && !names_category(exclusions[j], b) && forall|k: int|
                    0 <= k < j ==> names_category(#[trigger] exclusions[k], b),
        )
    } else {
        None
    }
}

/// A category that is not excluded.
pub open spec fn allowed(b: Categories, i: int, exclusions: Strings) -> bool {
    0 <= i < b.len() && !is_excluded(b[i].0, exclusions)
}

fn matches_any(name: &String, exclusions: &[String]) -> (r: bool)
    ensures
        r == is_excluded(name@, strings(exclusions@)),
{
    let mut j: usize = 0;
    while j < exclusions.len()
        invariant
            j <= exclusions.len(),
            forall|k: int| 0 <= k < j ==> !same_ignoring_ascii_case(name@, #[trigger] exclusions@[k]@),
        decreases exclusions.len() - j,
    {
        if eq_ignore_case(name.as_str(), exclusions[j].as_str()) {
            assert(same_ignoring_ascii_case(name@, strings(exclusions@)[j as int]));
            return true;
        }
        j = j + 1;
    }
    assert forall|k: int| 0 <= k < strings(exclusions@).len() implies !same_ignoring_ascii_case(
        name@,
        #[trigger] strings(exclusions@)[k],
    ) by {
        assert(strings(exclusions@)[k] == exclusions@[k]@);
    }
    false
}

fn known_category(excluded: &String, bosses: &Vec<(String, Vec<String>)>) -> (r: bool)
    ensures
        r == names_category(excluded@, categories(bosses@)),
{
    let mut i: usize = 0;
    while i < bosses.len()
        invariant
            i <= bosses.len(),
            forall|k: int| 0 <= k < i ==> !same_ignoring_ascii_case(#[trigger] bosses@[k].0@, excluded@),
        decreases bosses.len() - i,
    {
        if eq_ignore_case(bosses[i].0.as_str(), excluded.as_str()) {
            assert(same_ignoring_ascii_case(categories(bosses@)[i as int].0, excluded@));
            return true;
        }
        i = i + 1;
    }
    assert forall|k: int| 0 <= k < categories(bosses@).len() implies !same_ignoring_ascii_case(
        #[trigger] categories(bosses@)[k].0,
        excluded@,
    ) by {
        assert(categories(bosses@)[k].0 == bosses@[k].0@);
    }
    false
}

/// A random boss from a random category that is not excluded. Every exclusion
/// must name a category, ignoring ASCII case, else the first that names none
/// is refused; each remaining category is equally likely.
pub fn generate_boss(catalog: &Catalog, exclusions: &[String]) -> (r: Result<(String, String), ChooseError>)
    ensures
        ({
            let b = catalog@.0;
            let x = strings(exclusions@);
            match first_unknown(x, b) {
                Some(j) => r == Err::<(String, String), ChooseError>(
                    ChooseError::UnknownCategory(exclusions@[j]),
                ),
                None => {
                    &&& (r == Err::<(String, String), ChooseError>(
                        ChooseError::AllCategoriesExcluded,
                    ) <==> !exists|i: int| #[trigger] allowed(b, i, x))
                    &&& r matches Ok((c, boss)) ==> exists|i: int|
                        #[trigger] allowed(b, i, x) && b[i].0 == c@ && b[i].1.contains(boss@)
                    &&& r == Err::<(String, String), ChooseError>(ChooseError::NoBossesInCategory)
                        ==> exists|i: int| #[trigger] allowed(b, i, x) && b[i].1.len() == 0
                    &&& (r is Ok || r == Err::<(String, String), ChooseError>(
                        ChooseError::AllCategoriesExcluded,
                    ) || r == Err::<(String, String), ChooseError>(
                        ChooseError::NoBossesInCategory,
                    ))
                },
            }
        }),
{
    let ghost b = catalog@.0;
    let ghost x = strings(exclusions@);
    let mut j: usize = 0;
    while j < exclusions.len()
        invariant
            j <= exclusions.len(),
            b == catalog@.0,
            x == strings(exclusions@),
            forall|k: int| 0 <= k < j ==> names_category(#[trigger] x[k], b),
        decreases exclusions.len() - j,
    {
        if !known_category(&exclusions[j], &catalog.bosses) {
            proof {
                assert(!names_category(x[j as int], b));
                let f = first_unknown(x, b);
                assert(f is Some);
                let fj = f->0;
                if fj < j {
                    assert(names_category(x[fj], b));
                } else if fj > j {
                    assert(names_category(x[j as int], b));
                }
            }
            return Err(ChooseError::UnknownCategory(exclusions[j].clone()));
        }
        j = j + 1;
    }
    assert(first_unknown(x, b) is None);
    // The indices of the categories that are not excluded.
    let mut open: Vec<usize> = Vec::new();
    let mut i: usize = 0;
    while i < catalog.bosses.len()
        invariant
            i <= catalog.bosses.len(),
            b == catalog@.0,
            x == strings(exclusions@),
            forall|k: int| 0 <= k < open@.len() ==> #[trigger] allowed(b, open@[k] as int, x),
            forall|k: int| 0 <= k < i && allowed(b, k, x) ==> #[trigger] open@.contains(k as usize),
        decreases catalog.bosses.len() - i,
    {
        let ghost before = open@;
        if !matches_any(&catalog.bosses[i].0, exclusions) {
            open.push(i);
            assert(open@.last() == i);
        }
        assert forall|k: int| 0 <= k < i + 1 && allowed(b, k, x) implies #[trigger] open@.contains(
            k as usize,
        ) by {
            if k < i {
                assert(before.contains(k as usize));
                let m = choose|m: int| 0 <= m < before.len() && before[m] == k as usize;
                assert(open@[m] == k as usize);
            } else {
                assert(open@[open@.len() - 1] == i);
            }
        }
        i = i + 1;
    }
    match pick(open.as_slice()) {
        None => {
            assert forall|k: int| !#[trigger] allowed(b, k, x) by {
                if allowed(b, k, x) {
                    assert(open@.contains(k as usize));
                }
            }
            Err(ChooseError::AllCategoriesExcluded)
        },
        Some(picked) => {
            let ci = *picked;
            proof {
                let k = choose|k: int| 0 <= k < open@.len() && open@[k] == ci;
                assert(allowed(b, open@[k] as int, x));
            }
            match pick(catalog.bosses[ci].1.as_slice()) {
                None => Err(ChooseError::NoBossesInCategory),
                Some(boss) => {
                    proof {
                        let v = catalog.bosses@[ci as int].1@;
                        let k = choose|k: int| 0 <= k < v.len() && v[k] == *boss;
                        assert(b[ci as int].1[k] == boss@);
                    }
                    Ok((catalog.bosses[ci].0.clone(), boss.clone()))
                },
            }
        },
    }
}

/// What reading category numbers (counted from 1, separated by whitespace)
/// against the catalogue's categories gives: their names, in the order given.
pub open spec fn exclusions_from(input: Seq<char>, b: Categories) -> Result<Strings, ChooseError>
    decreases words(input).len(),
{
    numbers_to_names(words(input), b)
}

pub open spec fn numbers_to_names(ws: Strings, b: Categories) -> Result<Strings, ChooseError>
    decreases ws.len(),
{
    if ws.len() == 0 {
        Ok(seq![])
    } else {
        match numbers_to_names(ws.drop_last(), b) {
            Err(e) => Err(e),
            Ok(names) => match unsigned_value(ws.last(), usize::MAX as nat) {
                None => Err(ChooseError::InvalidCategoryNumber),
                Some(n) => if 1 <= n <= b.len() {
                    Ok(names.push(b[n - 1].0))
                } else {
                    Err(ChooseError::CategoryNumberOutOfRange)
                },
            },
        }
    }
}

proof fn lemma_numbers_fail(ws: Strings, b: Categories, i: int, e: ChooseError)
    requires
        0 <= i < ws.len(),
        numbers_to_names(ws.take(i + 1), b) == Err::<Strings, ChooseError>(e),
    ensures
        numbers_to_names(ws, b) == Err::<Strings, ChooseError>(e),
    decreases ws.len(),
{
    if i + 1 < ws.len() {
        assert(ws.drop_last().take(i + 1) =~= ws.take(i + 1));
        lemma_numbers_fail(ws.drop_last(), b, i, e);
    } else {
        assert(ws.take(i + 1) =~= ws);
    }
}

/// The categories chosen by number (counted from 1) in the menu's exclusion
/// prompt.
pub fn parse_exclusions(input: &str, catalog: &Catalog) -> (r: Result<Vec<String>, ChooseError>)
    ensures
        match r {
            Ok(v) => exclusions_from(input@, catalog@.0) == Ok::<Strings, ChooseError>(strings(v@)),
            Err(e) => exclusions_from(input@, catalog@.0) == Err::<Strings, ChooseError>(e),
        },
{
    let ws = split_words(input);
    let ghost w = words(input@);
    let ghost b = catalog@.0;
    assert(strings(ws@) =~= w);
    let mut names: Vec<String> = Vec::new();
    let mut i: usize = 0;
    assert(w.take(0) =~= Seq::<Seq<char>>::empty());
    assert(strings(names@) =~= Seq::<Seq<char>>::empty());
    while i < ws.len()
        invariant
            i <= ws.len(),
            w == words(input@),
            w == strings(ws@),
            b == catalog@.0,
            numbers_to_names(w.take(i as int), b) == Ok::<Strings, ChooseError>(strings(names@)),
        decreases ws.len() - i,
    {
        assert(w.take(i + 1).drop_last() =~= w.take(i as int));
        assert(w.take(i + 1).last() == ws@[i as int]@);
        let n = match parse_unsigned(ws[i].as_str(), usize::MAX as u64) {
            Some(n) => n,
            None => {
                proof {
                    lemma_numbers_fail(w, b, i as int, ChooseError::InvalidCategoryNumber);
                }
                return Err(ChooseError::InvalidCategoryNumber);
            },
        };
        if n < 1 || n > catalog.bosses.len() as u64 {
            proof {
                lemma_numbers_fail(w, b, i as int, ChooseError::CategoryNumberOutOfRange);
            }
            return Err(ChooseError::CategoryNumberOutOfRange);
        }
        let name = catalog.bosses[(n - 1) as usize].0.clone();
        let ghost before = strings(names@);
        names.push(name);
        assert(strings(names@) =~= before.push(b[n - 1].0));
        i = i + 1;
    }
    assert(w.take(i as int) =~= w);
    Ok(names)
}

/// Whether an answer to "Install it now? [y/N]" accepts: `y` or `yes`,
/// ignoring ASCII case.
pub open spec fn accepts(answer: Seq<char>) -> bool {
    same_ignoring_ascii_case(answer, "y"@) || same_ignoring_ascii_case(answer, "yes"@)
}

/// Whether an answer accepts an update.
pub fn is_yes(answer: &str) -> (r: bool)
    ensures
        r == accepts(answer@),
{
    eq_ignore_case(answer, "y") || eq_ignore_case(answer, "yes")
}

/// What a menu choice does.
#[derive(Debug, PartialEq, Eq)]
pub enum MenuStep {
    ChooseBoss,
    ChooseSkill,
    ListBosses,
    ShowVersion,
    Exit,
    Update,
    Refresh,
    ListSkills,
    NeedsNetwork,
    Invalid,
}

/// The step for a menu choice: options 1 to 8; updating (6) and refreshing
/// (7) need the network.
pub open spec fn menu_step_of(input: Seq<char>, offline: bool) -> MenuStep {
    if input == "1"@ {
        MenuStep::ChooseBoss
    } else if input == "2"@ {
        MenuStep::ChooseSkill
    } else if input == "3"@ {
        MenuStep::ListBosses
    } else if input == "4"@ {
        MenuStep::ShowVersion
    } else if input == "5"@ {
        MenuStep::Exit
    } else if input == "6"@ {
        if offline {
            MenuStep::NeedsNetwork
        } else {
            MenuStep::Update
        }
    } else if input == "7"@ {
        if offline {
            MenuStep::NeedsNetwork
        } else {
            MenuStep::Refresh
        }
    } else if input == "8"@ {
        MenuStep::ListSkills
    } else {
        MenuStep::Invalid
    }
}

/// The step for a menu choice.
pub fn menu_step(input: &str, offline: bool) -> (r: MenuStep)
    ensures
        r == menu_step_of(input@, offline),
{
    if same(input, "1") {
        MenuStep::ChooseBoss
    } else if same(input, "2") {
        MenuStep::ChooseSkill
    } else if same(input, "3") {
        MenuStep::ListBosses
    } else if same(input, "4") {
        MenuStep::ShowVersion
    } else if same(input, "5") {
        MenuStep::Exit
    } else if same(input, "6") {
        if offline {
            MenuStep::NeedsNetwork
        } else {
            MenuStep::Update
        }
    } else if same(input, "7") {
        if offline {
            MenuStep::NeedsNetwork
        } else {
            MenuStep::Refresh
        }
    } else if same(input, "8") {
        MenuStep::ListSkills
    } else {
        MenuStep::Invalid
    }
}

/// The command-line commands.
pub enum Command {
    Boss { exclusions: Vec<String> },
    Skill,
    ListBosses,
    ListSkills,
    RefreshData,
    Version,
    Update { check: bool },
}

/// Why a command was refused.
#[derive(Debug, PartialEq, Eq)]
pub enum CliError {
    UpdateNeedsNetwork,
    RefreshNeedsNetwork,
}

/// How a command uses the catalogue.
#[derive(Debug, PartialEq, Eq)]
pub enum CatalogUse {
    /// No catalogue is needed.
    Unused,
    /// Loaded with these `refresh` and `offline` flags.
    Load { refresh: bool, offline: bool },
}

/// What a command needs before it runs: updating and refreshing need the
/// network; refreshing forces a fetch; choosing and listing load the
/// catalogue as the `--offline` flag says.
pub open spec fn command_plan(command: Command, offline: bool) -> Result<CatalogUse, CliError> {
    match command {
        Command::Version => Ok(CatalogUse::Unused),
        Command::Update { .. } => if offline {
            Err(CliError::UpdateNeedsNetwork)
        } else {
            Ok(CatalogUse::Unused)
        },
        Command::RefreshData => if offline {
            Err(CliError::RefreshNeedsNetwork)
        } else {
            Ok(CatalogUse::Load { refresh: true, offline: false })
        },
        _ => Ok(CatalogUse::Load { refresh: false, offline }),
    }
}

/// What a command needs before it runs (see `command_plan`).
pub fn plan_command(command: &Command, offline: bool) -> (r: Result<CatalogUse, CliError>)
    ensures
        r == command_plan(*command, offline),
{
    match command {
        Command::Version => Ok(CatalogUse::Unused),
        Command::Update { .. } => if offline {
            Err(CliError::UpdateNeedsNetwork)
        } else {
            Ok(CatalogUse::Unused)
        },
        Command::RefreshData => if offline {
            Err(CliError::RefreshNeedsNetwork)
        } else {
            Ok(CatalogUse::Load { refresh: true, offline: false })
        },
        _ => Ok(CatalogUse::Load { refresh: false, offline }),
    }
}

/// Which catalogue load a menu step needs before it runs, given whether the
/// menu holds a catalogue already: refreshing always fetches anew; choosing
/// and listing load the catalogue once and keep it; the other steps need none.
pub open spec fn menu_load_of(step: MenuStep, offline: bool, loaded: bool) -> Option<CatalogUse> {
    match step {
        MenuStep::Refresh => Some(CatalogUse::Load { refresh: true, offline: false }),
        MenuStep::ChooseBoss | MenuStep::ChooseSkill | MenuStep::ListBosses
        | MenuStep::ListSkills => if loaded {
            None
        } else {
            Some(CatalogUse::Load { refresh: false, offline })
        },
        _ => None,
    }
}

/// The catalogue load a menu step needs (see `menu_load_of`).
pub fn menu_load(step: &MenuStep, offline: bool, loaded: bool) -> (r: Option<CatalogUse>)
    ensures
        r == menu_load_of(*step, offline, loaded),
{
    match step {
        MenuStep::Refresh => Some(CatalogUse::Load { refresh: true, offline: false }),
        MenuStep::ChooseBoss | MenuStep::ChooseSkill | MenuStep::ListBosses
        | MenuStep::ListSkills => if loaded {
            None
        } else {
            Some(CatalogUse::Load { refresh: false, offline })
        },
        _ => None,
    }
}

/// The number of bosses over all categories, up to `usize::MAX`.
pub fn boss_count(catalog: &Catalog) -> (r: usize)
    ensures
        r == if boss_total(catalog@.0) <= usize::MAX {
            boss_total(catalog@.0)
        } else {
            usize::MAX as nat
        },
{
    let ghost b = catalog@.0;
    let mut n: usize = 0;
    let mut i: usize = 0;
    while i < catalog.bosses.len()
        invariant
            i <= catalog.bosses.len(),
            b == catalog@.0,
            n == if boss_total(b.take(i as int)) <= usize::MAX {
                boss_total(b.take(i as int))
            } else {
                usize::MAX as nat
            },
        decreases catalog.bosses.len() - i,
    {
        assert(b.take(i + 1).drop_last() =~= b.take(i as int));
        n = n.saturating_add(catalog.bosses[i].1.len());
        i = i + 1;
    }
    assert(b.take(i as int) =~= b);
    n
}

/// The skills, separated by `, `.
pub fn list_skills(catalog: &Catalog) -> (r: String)
    ensures
        r@ == join(catalog@.1, ", "@),
{
    let ghost k = catalog@.1;
    let mut out = String::new();
    let mut i: usize = 0;
    assert(k.take(0) =~= Seq::<Seq<char>>::empty());
    while i < catalog.skills.len()
        invariant
            i <= catalog.skills.len(),
            k == catalog@.1,
            out@ == join(k.take(i as int), ", "@),
        decreases catalog.skills.len() - i,
    {
        assert(k.take(i + 1).drop_last() =~= k.take(i as int));
        if i > 0 {
            out.append(", ");
        }
        out.append(catalog.skills[i].as_str());
        i = i + 1;
        proof {
            if i == 1 {
                assert(k.take(1) =~= seq![k[0]]);
                assert(out@ =~= join(k.take(1), ", "@));
            }
        }
    }
    assert(k.take(i as int) =~= k);
    out
}

/// The lines that list one category: its name and a colon, each boss indented
/// by two spaces, then an empty line.
pub open spec fn category_lines(e: (Seq<char>, Strings)) -> Strings {
    seq![e.0 + ":"@] + e.1.map_values(|boss: Seq<char>| "  "@ + boss) + seq![Seq::<char>::empty()]
}

/// The lines that list every category in order.
pub open spec fn listing(b: Categories) -> Strings
    decreases b.len(),
{
    if b.len() == 0 {
        seq![]
    } else {
        listing(b.drop_last()) + category_lines(b.last())
    }
}

/// The lines of the boss list, category by category.
pub fn list_bosses(catalog: &Catalog) -> (r: Vec<String>)
    ensures
        strings(r@) == listing(catalog@.0),
{
    let ghost b = catalog@.0;
    let mut lines: Vec<String> = Vec::new();
    let mut i: usize = 0;
    assert(b.take(0) =~= Seq::<(Seq<char>, Strings)>::empty());
    assert(strings(lines@) =~= Seq::<Seq<char>>::empty());
    while i < catalog.bosses.len()
        invariant
            i <= catalog.bosses.len(),
            b == catalog@.0,
            strings(lines@) == listing(b.take(i as int)),
        decreases catalog.bosses.len() - i,
    {
        assert(b.take(i + 1).drop_last() =~= b.take(i as int));
        let ghost start = strings(lines@);
        let mut head = catalog.bosses[i].0.clone();
        head.append(":");
        lines.push(head);
        let ghost e = b[i as int];
        let mut j: usize = 0;
        while j < catalog.bosses[i].1.len()
            invariant
                i < catalog.bosses.len(),
                j <= catalog.bosses@[i as int].1.len(),
                b == catalog@.0,
                e == b[i as int],
                strings(lines@) == start + seq![e.0 + ":"@] + e.1.take(j as int).map_values(
                    |boss: Seq<char>| "  "@ + boss,
                ),
            decreases catalog.bosses@[i as int].1.len() - j,
        {
            let mut line = String::from_str("  ");
            line.append(catalog.bosses[i].1[j].as_str());
            let ghost before = strings(lines@);
            lines.push(line);
            assert(strings(lines@) =~= before.push("  "@ + e.1[j as int]));
            assert(e.1.take(j + 1).map_values(|boss: Seq<char>| "  "@ + boss) =~= e.1.take(
                j as int,
            ).map_values(|boss: Seq<char>| "  "@ + boss).push("  "@ + e.1[j as int]));
            j = j + 1;
        }
        assert(e.1.take(j as int) =~= e.1);
        let ghost before = strings(lines@);
        lines.push(String::new());
        assert(strings(lines@) =~= before.push(Seq::<char>::empty()));
        assert(strings(lines@) =~= start + category_lines(e));
        i = i + 1;
    }
    assert(b.take(i as int) =~= b);
    lines
}

/// The `--offline` flag is passed through unchanged to every command that
/// loads the catalogue to choose or list (so offline, no network request is
/// made), and such a load never forces a refresh; `refresh-data` always
/// fetches and, like `update`, is refused offline; `version` needs nothing.
pub proof fn law_commands_keep_the_offline_flag(offline: bool, exclusions: Vec<String>, check: bool)
    ensures
        command_plan(Command::Boss { exclusions }, offline) == Ok::<CatalogUse, CliError>(
            CatalogUse::Load { refresh: false, offline: offline },
        ),
        command_plan(Command::Skill, offline) == Ok::<CatalogUse, CliError>(
            CatalogUse::Load { refresh: false, offline: offline },
        ),
        command_plan(Command::ListBosses, offline) == Ok::<CatalogUse, CliError>(
            CatalogUse::Load { refresh: false, offline: offline },
        ),
        command_plan(Command::ListSkills, offline) == Ok::<CatalogUse, CliError>(
            CatalogUse::Load { refresh: false, offline: offline },
        ),
        command_plan(Command::RefreshData, false) == Ok::<CatalogUse, CliError>(
            CatalogUse::Load { refresh: true, offline: false },
        ),
        command_plan(Command::RefreshData, true) == Err::<CatalogUse, CliError>(
            CliError::RefreshNeedsNetwork,
        ),
        command_plan(Command::Update { check }, true) == Err::<CatalogUse, CliError>(
            CliError::UpdateNeedsNetwork,
        ),
        command_plan(Command::Update { check }, false) == Ok::<CatalogUse, CliError>(
            CatalogUse::Unused,
        ),
        command_plan(Command::Version, offline) == Ok::<CatalogUse, CliError>(CatalogUse::Unused),
{
}

/// The menu loads the catalogue once, with the `--offline` flag passed
/// through, before the first choice or listing, and not again; refreshing
/// always fetches anew; the other steps load nothing.
pub proof fn law_menu_loads_once(offline: bool)
    ensures
        menu_load_of(MenuStep::ChooseBoss, offline, false) == Some(
            CatalogUse::Load { refresh: false, offline: offline },
        ),
        menu_load_of(MenuStep::ChooseSkill, offline, false) == Some(
            CatalogUse::Load { refresh: false, offline: offline },
        ),
        menu_load_of(MenuStep::ListBosses, offline, false) == Some(
            CatalogUse::Load { refresh: false, offline: offline },
        ),
        menu_load_of(MenuStep::ListSkills, offline, false) == Some(
            CatalogUse::Load { refresh: false, offline: offline },
        ),
        menu_load_of(MenuStep::ChooseBoss, offline, true) is None,
        menu_load_of(MenuStep::ChooseSkill, offline, true) is None,
        menu_load_of(MenuStep::ListBosses, offline, true) is None,
        menu_load_of(MenuStep::ListSkills, offline, true) is None,
        menu_load_of(MenuStep::Refresh, false, true) == Some(
            CatalogUse::Load { refresh: true, offline: false },
        ),
        menu_load_of(MenuStep::ShowVersion, offline, false) is None,
        menu_load_of(MenuStep::Update, offline, false) is None,
        menu_load_of(MenuStep::Exit, offline, false) is None,
        menu_load_of(MenuStep::Invalid, offline, false) is None,
        menu_load_of(MenuStep::NeedsNetwork, offline, false) is None,
{
}

/// The menu's choices are the digits 1 to 8: boss, skill, list bosses,
/// version, exit, update, refresh and list skills; updating and refreshing
/// need the network; anything else is invalid.
pub proof fn law_menu_choices(offline: bool)
    ensures
        menu_step_of(seq!['1'], offline) == MenuStep::ChooseBoss,
        menu_step_of(seq!['2'], offline) == MenuStep::ChooseSkill,
        menu_step_of(seq!['3'], offline) == MenuStep::ListBosses,
        menu_step_of(seq!['4'], offline) == MenuStep::ShowVersion,
        menu_step_of(seq!['5'], offline) == MenuStep::Exit,
        menu_step_of(seq!['6'], false) == MenuStep::Update,
        menu_step_of(seq!['7'], false) == MenuStep::Refresh,
        menu_step_of(seq!['6'], true) == MenuStep::NeedsNetwork,
        menu_step_of(seq!['7'], true) == MenuStep::NeedsNetwork,
        menu_step_of(seq!['8'], offline) == MenuStep::ListSkills,
        menu_step_of(seq!['9'], offline) == MenuStep::Invalid,
        menu_step_of(Seq::<char>::empty(), offline) == MenuStep::Invalid,
{
    reveal_strlit("1");
    reveal_strlit("2");
    reveal_strlit("3");
    reveal_strlit("4");
    reveal_strlit("5");
    reveal_strlit("6");
    reveal_strlit("7");
    reveal_strlit("8");
    assert("1"@ =~= seq!['1']);
    assert("2"@ =~= seq!['2']);
    assert("3"@ =~= seq!['3']);
    assert("4"@ =~= seq!['4']);
    assert("5"@ =~= seq!['5']);
    assert("6"@ =~= seq!['6']);
    assert("7"@ =~= seq!['7']);
    assert("8"@ =~= seq!['8']);
    assert(seq!['1'][0] == '1' && seq!['2'][0] == '2' && seq!['3'][0] == '3');
    assert(seq!['4'][0] == '4' && seq!['5'][0] == '5' && seq!['6'][0] == '6');
    assert(seq!['7'][0] == '7' && seq!['8'][0] == '8' && seq!['9'][0] == '9');
}

} // verus!
