use osrs_random::catalog::Catalog;
use osrs_random::chooser::{
    boss_count, generate_boss, generate_skill, is_yes, list_bosses, list_skills, menu_load, menu_step,
    parse_exclusions, plan_command, CatalogUse, ChooseError, CliError, Command, MenuStep,
};

fn small() -> Catalog {
    Catalog {
        bosses: vec![
            ("God Wars Dungeon".into(), vec!["Kree'arra".into(), "Nex".into()]),
            ("World bosses".into(), vec!["Scurrius".into()]),
        ],
        skills: vec!["Attack".into(), "Sailing".into()],
    }
}

#[test]
fn exclusions_reject_typos_and_empty_selection() {
    let catalog = Catalog {
        bosses: vec![("World bosses".into(), vec!["Scurrius".into()])],
        skills: vec!["Sailing".into()],
    };
    assert!(generate_boss(&catalog, &["typo".into()]).is_err());
    assert!(generate_boss(&catalog, &["WORLD BOSSES".into()]).is_err());
    assert!(generate_boss(&catalog, &[]).is_ok());
}

#[test]
fn chosen_bosses_come_from_categories_left_in() {
    let catalog = small();
    for _ in 0..50 {
        let (category, boss) = generate_boss(&catalog, &["god wars DUNGEON".into()]).unwrap();
        assert_eq!(category, "World bosses");
        assert_eq!(boss, "Scurrius");
    }
    assert_eq!(
        generate_boss(&catalog, &["World bosses".into(), "nope".into(), "other".into()]),
        Err(ChooseError::UnknownCategory("nope".into()))
    );
    assert_eq!(
        generate_boss(&catalog, &["World bosses".into(), "God Wars Dungeon".into()]),
        Err(ChooseError::AllCategoriesExcluded)
    );
    let empty = Catalog { bosses: vec![("Empty".into(), vec![])], skills: vec![] };
    assert_eq!(generate_boss(&empty, &[]), Err(ChooseError::NoBossesInCategory));
}

#[test]
fn skills_are_chosen_from_the_list() {
    let catalog = small();
    for _ in 0..20 {
        assert!(catalog.skills.contains(&generate_skill(&catalog).unwrap()));
    }
    let none = Catalog { bosses: vec![], skills: vec![] };
    assert_eq!(generate_skill(&none), Err(ChooseError::NoSkills));
}

#[test]
fn category_numbers_name_categories() {
    let catalog = small();
    assert_eq!(parse_exclusions(" 2  1 ", &catalog), Ok(vec!["World bosses".into(), "God Wars Dungeon".into()]));
    assert_eq!(parse_exclusions("", &catalog), Ok(vec![]));
    assert_eq!(parse_exclusions("+1", &catalog), Ok(vec!["God Wars Dungeon".into()]));
    assert_eq!(parse_exclusions("1 x", &catalog), Err(ChooseError::InvalidCategoryNumber));
    assert_eq!(parse_exclusions("0", &catalog), Err(ChooseError::CategoryNumberOutOfRange));
    assert_eq!(parse_exclusions("3", &catalog), Err(ChooseError::CategoryNumberOutOfRange));
    assert_eq!(
        parse_exclusions("99999999999999999999999", &catalog),
        Err(ChooseError::InvalidCategoryNumber)
    );
}

#[test]
fn update_answers_accept_y_and_yes() {
    assert!(is_yes("y"));
    assert!(is_yes("YeS"));
    assert!(!is_yes("no"));
    assert!(!is_yes(""));
    assert!(!is_yes("yes please"));
}

#[test]
fn menu_choices_map_to_steps() {
    assert_eq!(menu_step("1", false), MenuStep::ChooseBoss);
    assert_eq!(menu_step("2", true), MenuStep::ChooseSkill);
    assert_eq!(menu_step("3", false), MenuStep::ListBosses);
    assert_eq!(menu_step("4", false), MenuStep::ShowVersion);
    assert_eq!(menu_step("5", false), MenuStep::Exit);
    assert_eq!(menu_step("6", false), MenuStep::Update);
    assert_eq!(menu_step("6", true), MenuStep::NeedsNetwork);
    assert_eq!(menu_step("7", false), MenuStep::Refresh);
    assert_eq!(menu_step("7", true), MenuStep::NeedsNetwork);
    assert_eq!(menu_step("8", false), MenuStep::ListSkills);
    assert_eq!(menu_step("9", false), MenuStep::Invalid);
    assert_eq!(menu_step("1 ", false), MenuStep::Invalid);
}

#[test]
fn offline_refuses_network_commands() {
    assert_eq!(plan_command(&Command::Update { check: true }, true), Err(CliError::UpdateNeedsNetwork));
    assert_eq!(plan_command(&Command::RefreshData, true), Err(CliError::RefreshNeedsNetwork));
    assert_eq!(
        plan_command(&Command::RefreshData, false),
        Ok(CatalogUse::Load { refresh: true, offline: false })
    );
    assert_eq!(plan_command(&Command::Version, true), Ok(CatalogUse::Unused));
    assert_eq!(
        plan_command(&Command::Boss { exclusions: vec![] }, true),
        Ok(CatalogUse::Load { refresh: false, offline: true })
    );
    assert_eq!(plan_command(&Command::Update { check: false }, false), Ok(CatalogUse::Unused));
}

#[test]
fn listings_follow_the_catalogue() {
    let catalog = small();
    assert_eq!(list_skills(&catalog), "Attack, Sailing");
    assert_eq!(
        list_bosses(&catalog),
        vec!["God Wars Dungeon:", "  Kree'arra", "  Nex", "", "World bosses:", "  Scurrius", ""]
    );
    assert_eq!(boss_count(&catalog), 3);
}

#[test]
fn the_menu_loads_the_catalogue_once() {
    let once = Some(CatalogUse::Load { refresh: false, offline: true });
    assert_eq!(menu_load(&MenuStep::ChooseBoss, true, false), once);
    assert_eq!(menu_load(&MenuStep::ListSkills, true, false), once);
    assert_eq!(menu_load(&MenuStep::ChooseSkill, true, true), None);
    assert_eq!(
        menu_load(&MenuStep::Refresh, false, true),
        Some(CatalogUse::Load { refresh: true, offline: false })
    );
    assert_eq!(menu_load(&MenuStep::ShowVersion, false, false), None);
    assert_eq!(menu_load(&MenuStep::Invalid, false, false), None);
}
