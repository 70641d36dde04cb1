use admin_plugins::menu::{action_refusal, open_from_admin, record_shown, sort_maps_by_key};
use admin_plugins::menu::{
    collect_map_ids, eligible_maps, escape_html, map_label, on_action, pages, prepare_vote_selection,
    select_home, select_manual_action, select_manual_maps, select_vote_home, select_vote_maps,
    show_home, show_manual_action, show_manual_maps, show_vote_home, show_vote_maps, MenuCommand,
    MenuDocument, ACTION_BACK, ACTION_EXIT, ACTION_NEXT, ACTION_PREV,
};
use admin_plugins::state::{screen, selected_maps, set_screen, toggle_selected_map, AdminState, Screen};

fn maps(n: i32) -> Vec<(i32, String)> {
    (1..=n).map(|i| (100 + i, format!("map{i}"))).collect()
}

fn option_labels(doc: &MenuDocument) -> Vec<(i32, &str)> {
    doc.options.iter().map(|(k, l)| (*k, l.as_str())).collect()
}

#[test]
fn escaping_html() {
    assert_eq!(escape_html("a<b>&\"c'"), "a&lt;b&gt;&amp;&quot;c&#39;");
    assert_eq!(escape_html("de_dust2"), "de_dust2");
    assert_eq!(escape_html(""), "");
    let twice = escape_html(&escape_html("<x>"));
    assert_eq!(twice, "&amp;lt;x&amp;gt;");
    assert!(!twice.contains('<') && !twice.contains('>'));
}

#[test]
fn page_arithmetic() {
    assert_eq!(pages(0, 5, 3), (1, 0));
    assert_eq!(pages(5, 5, 0), (1, 0));
    assert_eq!(pages(6, 5, 1), (2, 1));
    assert_eq!(pages(6, 5, 9), (2, 1));
    assert_eq!(pages(11, 5, 2), (3, 2));
}

#[test]
fn home_actions() {
    assert_eq!(select_home(1), MenuCommand::ShowManualMaps { page: 0 });
    assert_eq!(select_home(2), MenuCommand::ShowVoteHome);
    assert_eq!(select_home(ACTION_BACK), MenuCommand::BackToAdminMenu);
    assert_eq!(select_home(5), MenuCommand::ShowHome);
}

#[test]
fn manual_map_list_actions() {
    let list = maps(7);
    assert_eq!(select_manual_maps(&list, 5, ACTION_BACK, 0), MenuCommand::ShowHome);
    assert_eq!(select_manual_maps(&list, 5, ACTION_NEXT, 0), MenuCommand::ShowManualMaps { page: 1 });
    assert_eq!(select_manual_maps(&list, 5, ACTION_NEXT, 1), MenuCommand::ShowManualMaps { page: 1 });
    assert_eq!(select_manual_maps(&list, 5, ACTION_PREV, 1), MenuCommand::ShowManualMaps { page: 0 });
    assert_eq!(select_manual_maps(&list, 5, ACTION_PREV, 0), MenuCommand::ShowManualMaps { page: 0 });
    assert_eq!(
        select_manual_maps(&list, 5, 2, 1),
        MenuCommand::ShowManualAction { map_id: 107, page: 1 }
    );
    assert_eq!(select_manual_maps(&list, 5, 3, 1), MenuCommand::ShowManualMaps { page: 1 });
    assert_eq!(
        select_manual_maps(&list, 5, 1, 40),
        MenuCommand::ShowManualAction { map_id: 106, page: 1 }
    );
    assert_eq!(select_manual_maps(&Vec::new(), 5, 1, 0), MenuCommand::ShowManualMaps { page: 0 });
}

#[test]
fn manual_action_choices() {
    assert_eq!(select_manual_action(ACTION_BACK, 3, 2), MenuCommand::ShowManualMaps { page: 2 });
    assert_eq!(select_manual_action(1, 3, 2), MenuCommand::ChangeNow { map_id: 3 });
    assert_eq!(select_manual_action(2, 3, 2), MenuCommand::ChangeAfterRound { map_id: 3 });
    assert_eq!(select_manual_action(4, 3, 2), MenuCommand::ShowManualAction { map_id: 3, page: 2 });
}

#[test]
fn vote_home_actions() {
    let mut s = AdminState::new();
    toggle_selected_map(&mut s, 1, 5, 5);
    assert_eq!(select_vote_home(&mut s, 1, 1), MenuCommand::ShowVoteMaps { page: 0 });
    assert_eq!(select_vote_home(&mut s, 1, 2), MenuCommand::StartSelectedVote);
    assert_eq!(select_vote_home(&mut s, 1, ACTION_BACK), MenuCommand::ShowHome);
    assert_eq!(selected_maps(&s, 1), vec![5]);
    assert_eq!(select_vote_home(&mut s, 1, 3), MenuCommand::ShowVoteHome);
    assert_eq!(selected_maps(&s, 1), Vec::<i32>::new());
}

#[test]
fn vote_map_list_toggles_and_refuses_when_full() {
    let mut s = AdminState::new();
    let list = maps(3);
    assert_eq!(
        select_vote_maps(&mut s, 0, 1, 0, &list, 5, 2),
        (MenuCommand::ShowVoteMaps { page: 0 }, None)
    );
    assert_eq!(select_vote_maps(&mut s, 0, 2, 0, &list, 5, 2).1, None);
    let (cmd, notice) = select_vote_maps(&mut s, 0, 3, 0, &list, 5, 2);
    assert_eq!(cmd, MenuCommand::ShowVoteMaps { page: 0 });
    assert_eq!(
        notice,
        Some("[MapChooser] Для голосования можно выбрать не больше 2 карт.".to_string())
    );
    assert_eq!(selected_maps(&s, 0), vec![101, 102]);
    assert_eq!(select_vote_maps(&mut s, 0, 1, 0, &list, 5, 2).1, None);
    assert_eq!(selected_maps(&s, 0), vec![102]);
    assert_eq!(select_vote_maps(&mut s, 0, ACTION_BACK, 0, &list, 5, 2).0, MenuCommand::ShowVoteHome);
}

#[test]
fn selection_drops_maps_no_longer_listed() {
    let mut s = AdminState::new();
    for id in [101, 999, 103] {
        toggle_selected_map(&mut s, 2, id, 5);
    }
    assert_eq!(collect_map_ids(&maps(3)), vec![101, 102, 103]);
    assert_eq!(prepare_vote_selection(&mut s, 2, &maps(3)), vec![101, 103]);
    assert_eq!(selected_maps(&s, 2), vec![101, 103]);
}

#[test]
fn home_document() {
    let doc = show_home("<Dust>");
    assert_eq!(doc.screen_id, "mapadmin.home");
    assert_eq!(doc.title, "Управление картами");
    assert!(doc.html.contains("Следующая карта: <font color='#FFD700'>&lt;Dust&gt;</font>"));
    assert_eq!(doc.content, vec!["Ручная установка", "Голосование за карту"]);
    assert_eq!(
        option_labels(&doc),
        vec![(1, "Ручная установка"), (2, "Голосование за карту"), (ACTION_BACK, "Назад"), (ACTION_EXIT, "Выход")]
    );
    assert_eq!(doc.screen, Screen::Home);
}

#[test]
fn manual_action_document() {
    let doc = show_manual_action(7, "Inferno", 1);
    assert_eq!(doc.screen_id, "mapadmin.manual.action");
    assert!(doc.html.contains("Карта: <font color='#FFD700'>Inferno</font>"));
    assert_eq!(doc.content, vec!["Сейчас", "После раунда"]);
    assert_eq!(doc.screen, Screen::ManualAction { map_id: 7, page: 1 });
}

#[test]
fn manual_maps_document_pages() {
    let list = maps(7);
    let doc = show_manual_maps(&list, 1, 5);
    assert_eq!(doc.screen, Screen::ManualMaps { page: 1 });
    assert!(doc.html.starts_with("<b>=== ВЫБОР КАРТЫ ===</b> <font color='#888'>[2/2]</font>"));
    assert!(doc.html.ends_with(
        "<font color='#8FD3FF'>!1</font> - <font color='#FFD700'>map6</font><br><font color='#8FD3FF'>!2</font> - <font color='#FFD700'>map7</font><br>"
    ));
    assert_eq!(doc.content, vec!["map6", "map7"]);
    assert_eq!(
        option_labels(&doc),
        vec![(1, "map6"), (2, "map7"), (ACTION_PREV, "Предыдущая страница"), (ACTION_BACK, "Назад"), (ACTION_EXIT, "Выход")]
    );
    let first = show_manual_maps(&list, 0, 5);
    assert_eq!(first.content.len(), 5);
    assert_eq!(first.options[5], (ACTION_NEXT, "Следующая страница".to_string()));
    let empty = show_manual_maps(&Vec::new(), 3, 5);
    assert_eq!(empty.content, vec!["Нет доступных карт"]);
    assert!(empty.html.ends_with("Нет карт, разрешённых текущими фильтрами.<br>"));
    assert_eq!(option_labels(&empty), vec![(ACTION_BACK, "Назад"), (ACTION_EXIT, "Выход")]);
}

#[test]
fn vote_home_document() {
    let mut s = AdminState::new();
    let none = show_vote_home(&mut s, 0, &maps(3), 5);
    assert!(none.html.contains("Выбрано: <font color='#FFD700'>0/5</font><br><font color='#AAA'>нет</font>"));
    let list = vec![(1, "Dust II".to_string()), (2, "A&B".to_string()), (3, "Nuke".to_string())];
    for id in [2, 99, 1] {
        toggle_selected_map(&mut s, 0, id, 5);
    }
    let some = show_vote_home(&mut s, 0, &list, 3);
    // The map no longer eligible (99) leaves the selection before it is shown.
    assert_eq!(selected_maps(&s, 0), vec![2, 1]);
    assert!(some.html.contains("2/3</font><br><font color='#AAA'>A&amp;B, Dust II</font>"));
    assert_eq!(some.content, vec!["Выбрать карты", "Запустить голосование", "Очистить выбор"]);
    assert_eq!(
        option_labels(&some),
        vec![(1, "Выбрать карты"), (2, "Запустить голосование"), (3, "Очистить выбор"), (ACTION_BACK, "Назад"), (ACTION_EXIT, "Выход")]
    );
    assert_eq!(some.screen, Screen::VoteHome);
}

#[test]
fn shown_documents_set_the_screen() {
    let mut s = AdminState::new();
    assert_eq!(record_shown(&mut s, 4, Screen::VoteHome, true), None);
    assert_eq!(screen(&s, 4), Some(Screen::VoteHome));
    assert_eq!(
        record_shown(&mut s, 4, Screen::Home, false),
        Some("[MapChooser] Не удалось открыть меню.")
    );
    assert_eq!(screen(&s, 4), None);
}

#[test]
fn vote_maps_document_marks_selection() {
    let mut s = AdminState::new();
    toggle_selected_map(&mut s, 0, 102, 5);
    toggle_selected_map(&mut s, 0, 555, 5);
    let doc = show_vote_maps(&mut s, 0, &maps(3), 0, 5, 4);
    assert_eq!(selected_maps(&s, 0), vec![102]);
    assert!(doc.html.contains("Выбрано: <font color='#FFD700'>1/4</font>"));
    assert_eq!(doc.content, vec!["map1", "[✓] map2", "map3"]);
    assert_eq!(doc.options.last().unwrap(), &(ACTION_EXIT, "Выход".to_string()));
    assert_eq!(doc.options[3], (ACTION_BACK, "Готово".to_string()));
    assert_eq!(doc.screen, Screen::VoteMaps { page: 0 });
}

#[test]
fn map_labels() {
    assert_eq!(map_label("  Dust II ", "de_dust2"), "Dust II");
    assert_eq!(map_label("   ", " de_dust2 "), "de_dust2");
    assert_eq!(map_label("", ""), "");
}

#[test]
fn eligible_maps_sort_by_lowercase_label() {
    let ids = vec![1, 2, 3, 4, 5];
    let labels = vec![
        "inferno".to_string(),
        "".to_string(),
        "Anubis".to_string(),
        "ÉCOLE".to_string(),
        "ancient".to_string(),
    ];
    let result = eligible_maps(&ids, &labels);
    assert_eq!(
        result,
        vec![
            (5, "ancient".to_string()),
            (3, "Anubis".to_string()),
            (1, "inferno".to_string()),
            (4, "ÉCOLE".to_string()),
        ]
    );
}

#[test]
fn eligible_maps_keep_order_of_equal_keys() {
    let ids = vec![1, 2, 3];
    let labels = vec!["Mirage".to_string(), "mirage".to_string(), "MIRAGE".to_string()];
    assert_eq!(
        eligible_maps(&ids, &labels),
        vec![(1, "Mirage".to_string()), (2, "mirage".to_string()), (3, "MIRAGE".to_string())]
    );
}

#[test]
fn actions_follow_the_screen() {
    let mut s = AdminState::new();
    let list = maps(3);
    assert_eq!(on_action(&mut s, 1, ACTION_EXIT, &list, 5, 5), (MenuCommand::Close, None));
    assert_eq!(on_action(&mut s, 1, 1, &list, 5, 5), (MenuCommand::ShowHome, None));
    set_screen(&mut s, 1, Screen::Home);
    assert_eq!(on_action(&mut s, 1, 1, &list, 5, 5).0, MenuCommand::ShowManualMaps { page: 0 });
    set_screen(&mut s, 1, Screen::ManualMaps { page: 0 });
    assert_eq!(
        on_action(&mut s, 1, 3, &list, 5, 5).0,
        MenuCommand::ShowManualAction { map_id: 103, page: 0 }
    );
    set_screen(&mut s, 1, Screen::ManualAction { map_id: 103, page: 0 });
    assert_eq!(on_action(&mut s, 1, 2, &list, 5, 5).0, MenuCommand::ChangeAfterRound { map_id: 103 });
    set_screen(&mut s, 1, Screen::VoteMaps { page: 0 });
    assert_eq!(on_action(&mut s, 1, 2, &list, 5, 5), (MenuCommand::ShowVoteMaps { page: 0 }, None));
    assert_eq!(selected_maps(&s, 1), vec![102]);
    set_screen(&mut s, 1, Screen::VoteHome);
    assert_eq!(on_action(&mut s, 1, 3, &list, 5, 5).0, MenuCommand::ShowVoteHome);
    assert_eq!(selected_maps(&s, 1), Vec::<i32>::new());
}

#[test]
fn menu_gates() {
    assert_eq!(open_from_admin(true, true), Ok(MenuCommand::ShowHome));
    assert_eq!(
        open_from_admin(false, true),
        Err("[MapChooser] Управление картами временно недоступно.")
    );
    assert_eq!(
        open_from_admin(true, false),
        Err("[MapChooser] Недостаточно прав для управления картами.")
    );
    assert_eq!(action_refusal(true, true), None);
    assert_eq!(
        action_refusal(false, false),
        Some("[MapChooser] Управление картами временно недоступно.")
    );
    assert_eq!(
        action_refusal(true, false),
        Some("[MapChooser] Доступ к управлению картами отозван.")
    );
}

#[test]
fn maps_sort_stably_by_given_keys() {
    let maps = vec![(1, "x".to_string()), (2, "y".to_string()), (3, "z".to_string()), (4, "w".to_string())];
    let keys = vec!["b".to_string(), "a".to_string(), "b".to_string(), "".to_string()];
    assert_eq!(
        sort_maps_by_key(&maps, &keys),
        vec![(4, "w".to_string()), (2, "y".to_string()), (1, "x".to_string()), (3, "z".to_string())]
    );
    assert_eq!(sort_maps_by_key(&Vec::new(), &Vec::new()), Vec::<(i32, String)>::new());
}
