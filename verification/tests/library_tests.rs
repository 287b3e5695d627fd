use apekey::app::Action;
use apekey::app::Apekey;
use apekey::app::AppConfig;
use apekey::app::Message;
use apekey::app::State;
use apekey::app::Ui;
use apekey::error::Error;
use apekey::parser::KeybindToken;
use apekey::parser::Parsed;
use apekey::parser::Parser;
use apekey::parser::Section as ParsedSection;
use apekey::parser::parse_entry;
use apekey::parser::parse_keybind_declaration;
use apekey::render::render_document;
use apekey::search::filter_tokens;
use apekey::token::Keybind;
use apekey::token::ScoredKeybind;
use apekey::token::Section;
use apekey::token::Tokens;
use apekey::user_config::FontConfig;
use apekey::user_config::Theme;
use apekey::user_config::UserConfig;

fn s(text: &str) -> String {
    text.to_string()
}

fn menu_doc() -> Tokens {
    Parser::new(s("-- # Menu\n-- ## Apps\n-- \"M-p\" Launch menu\n-- #")).parse().unwrap()
}

#[test]
fn scenario_menu_document() {
    assert_eq!(
        parse_entry("-- # Menu\n-- ## Apps\n-- \"M-p\" Launch menu\n-- #"),
        Ok((
            s(""),
            Parsed {
                title: Some(s("Menu")),
                sections: vec![ParsedSection {
                    title: Some(s("Apps")),
                    keybinds: vec![KeybindToken(s("M-p"), s("Launch menu"))]
                }]
            }
        ))
    );
}

#[test]
fn scenario_ignore_marker_skips_declaration() {
    assert!(parse_keybind_declaration("-- ! skip\n(\"M-x\", kill)").is_err());
    let doc = Parser::new(s("-- #\n-- ##\n-- ! skip\n(\"M-x\", kill)\n-- #")).parse().unwrap();
    assert_eq!(doc.section_count(), 1);
    assert_eq!(doc.keybind_count(), 0);
}

#[test]
fn missing_close_is_tolerated() {
    let doc = Parser::new(s("-- # T\n-- ## S\n-- \"M-1\" d\n")).parse().unwrap();
    assert_eq!(doc.title, Some(s("T")));
    assert_eq!(doc.section_count(), 1);
    assert_eq!(doc.keybind_count(), 1);
    assert_eq!(doc.sections[0].keybinds[0], Keybind::new("M-1", "d"));
}

#[test]
fn missing_open_is_the_hard_failure() {
    let r = Parser::new(s("some code\nmore code\n")).parse();
    assert!(r.is_err());
    assert!(parse_entry("").is_err());
}

#[test]
fn counts_over_real_layout() {
    let doc = Parser::new(s(
        "-- # Keys\n\
         -- ## One\n\
         -- \"M-1\" first\n\
         -- second\n\
         , (\"M-2\", spawn)\n\
         -- ## Two\n\
         -- \"M-3\" third\n\
         -- #\n",
    ))
    .parse()
    .unwrap();
    assert_eq!(doc.section_count(), 2);
    assert_eq!(doc.keybind_count(), 3);
    let flat = doc.keybinds();
    assert_eq!(flat.len(), 3);
    assert_eq!(flat[0].keys, s("M-1"));
    assert_eq!(flat[1].keys, s("M-2"));
    assert_eq!(flat[1].description, s("second"));
    assert_eq!(flat[2].keys, s("M-3"));
    assert!(flat.iter().all(|e| e.score.is_none()));
}

#[test]
fn render_exact_output() {
    let doc = Tokens {
        title: Some(s("Menu")),
        sections: vec![Section {
            title: Some(s("Apps")),
            keybinds: vec![Keybind::new("M-p", "Launch menu")],
        }],
    };
    assert_eq!(
        render_document(&doc),
        s("-- # Menu\n-- ## Apps\n-- Launch menu\n(\"M-p\")\n-- #\n")
    );
}

#[test]
fn render_parse_round_trip() {
    let doc = Tokens {
        title: Some(s("Menu")),
        sections: vec![
            Section {
                title: Some(s("Apps")),
                keybinds: vec![Keybind::new("M-p", "Launch menu"), Keybind::new("M-t", "")],
            },
            Section { title: None, keybinds: vec![Keybind::new("M-<[]>", "Next screen")] },
        ],
    };
    let text = render_document(&doc);
    let again = Parser::new(text).parse().unwrap();
    assert_eq!(again, doc);
}

#[test]
fn render_parse_round_trip_of_parsed_document() {
    let doc = menu_doc();
    let again = Parser::new(render_document(&doc)).parse().unwrap();
    assert_eq!(again, doc);
}

#[test]
fn search_empty_pattern_is_identity() {
    let entries = menu_doc().keybinds();
    let shown = filter_tokens(entries.clone(), s(""));
    assert_eq!(shown, entries);
    assert!(shown.iter().all(|e| e.score.is_none()));
}

#[test]
fn search_scores_matching_entries() {
    let entries = menu_doc().keybinds();
    let shown = filter_tokens(entries, s("launch"));
    assert_eq!(shown.len(), 1);
    assert_eq!(shown[0].keys, s("M-p"));
    assert_eq!(shown[0].description, s("Launch menu"));
    assert!(shown[0].score.is_some());
}

#[test]
fn search_excludes_non_matching_entries() {
    let doc = Parser::new(s(
        "-- # T\n-- ## S\n-- \"M-p\" Launch menu\n-- \"M-t\" Open terminal\n-- #",
    ))
    .parse()
    .unwrap();
    let shown = filter_tokens(doc.keybinds(), s("term"));
    assert_eq!(shown.len(), 1);
    assert_eq!(shown[0].keys, s("M-t"));
    let none = filter_tokens(doc.keybinds(), s("zzzqqq"));
    assert!(none.is_empty());
}

#[test]
fn search_ranks_by_descending_score() {
    let doc = Parser::new(s(
        "-- # T\n-- ## S\n-- \"M-a\" xmonad restart\n-- \"M-b\" restart\n-- \"M-c\" other thing\n-- #",
    ))
    .parse()
    .unwrap();
    let shown = filter_tokens(doc.keybinds(), s("restart"));
    assert_eq!(shown.len(), 2);
    for pair in shown.windows(2) {
        assert!(pair[0].score.as_ref().unwrap().0 >= pair[1].score.as_ref().unwrap().0);
    }
}

#[test]
fn message_descriptions() {
    assert_eq!(Message::ConfigRead(s("x")).describe(), s("ConfigRead"));
    assert_eq!(Message::ConfigError(s("x")).describe(), s("ConfigError"));
    assert_eq!(Message::ParsingDone(menu_doc()).describe(), s("ParsingDone"));
    assert_eq!(Message::ParsingError(s("x")).describe(), s("ParsingError"));
    assert_eq!(Message::InputChanged(s("abc")).describe(), s("InputChanged: abc"));
    assert_eq!(Message::TokensFiltered(vec![ScoredKeybind::default()]).describe(), s("TokensFiltered"));
    assert_eq!(Message::TabPressed { shift: true }.describe(), s("TabPressed, shift true"));
    assert_eq!(Message::TabPressed { shift: false }.describe(), s("TabPressed, shift false"));
}

#[test]
fn config_resolution() {
    let user = UserConfig::default();
    assert_eq!(user.xmonad_config, s("~/.xmonad/xmonad.hs"));
    assert_eq!(user.font, Some(FontConfig::default()));
    assert!(user.theme.is_none());

    let resolved = AppConfig::from(user);
    assert_eq!(resolved.theme, Theme::Dark);
    assert_eq!(resolved.ui.title_size, 28);
    assert_eq!(resolved.ui.section_size, 20);

    let sparse = UserConfig {
        xmonad_config: s("/tmp/xmonad.hs"),
        font: Some(FontConfig {
            title_size: None,
            section_size: Some(11),
            keybind_size: None,
            text_size: None,
            error_size: None,
        }),
        theme: Some(Theme::Light),
        regular_comment: None,
        keybind_text_min_width: None,
    };
    let resolved = AppConfig::from(sparse);
    assert_eq!(resolved.config_path, s("/tmp/xmonad.hs"));
    assert_eq!(resolved.theme, Theme::Light);
    assert_eq!(resolved.ui.title_size, 0);
    assert_eq!(resolved.ui.section_size, 11);

    assert_eq!(Ui::default().keybind_size, 20);
}

#[test]
fn error_carries_its_message() {
    let e = Error::new("something went wrong");
    assert_eq!(e.message(), "something went wrong");
    let r = parse_entry("nothing here");
    assert_eq!(r.unwrap_err().message(), "no opening boundary marker found in input");
}

#[test]
fn session_walks_through_its_phases() {
    let (mut session, action) = Apekey::new(AppConfig::from(UserConfig::default()));
    assert_eq!(session.state, State::ReadingConfig);
    assert_eq!(action, Action::ReadConfig(s("~/.xmonad/xmonad.hs")));

    let text = s("-- # Menu\n-- ## Apps\n-- \"M-p\" Launch menu\n-- #");
    let action = session.update(Message::ConfigRead(text.clone()));
    assert_eq!(session.state, State::ParsingConfig);
    assert_eq!(action, Action::Parse(text));

    let doc = menu_doc();
    let action = session.update(Message::ParsingDone(doc.clone()));
    assert_eq!(session.state, State::RenderKeybinds);
    assert_eq!(session.document, Some(doc.clone()));
    assert_eq!(action, Action::Idle);

    let action = session.update(Message::InputChanged(s("launch")));
    assert_eq!(session.input_value, s("launch"));
    match action {
        Action::Filter(entries, pattern) => {
            assert_eq!(pattern, s("launch"));
            assert_eq!(entries, doc.keybinds());
            let results = filter_tokens(entries, pattern);
            assert_eq!(session.update(Message::TokensFiltered(results.clone())), Action::Idle);
            assert_eq!(session.tokens, results);
        }
        other => panic!("expected a filter action, got {other:?}"),
    }

    assert_eq!(session.update(Message::InputChanged(s(""))), Action::Idle);
    assert_eq!(session.update(Message::TabPressed { shift: true }), Action::FocusPrevious);
    assert_eq!(session.update(Message::TabPressed { shift: false }), Action::FocusNext);

    let action = session.update(Message::ParsingError(s("boom")));
    assert_eq!(session.state, State::Error(s("boom")));
    assert_eq!(action, Action::Idle);
}

#[test]
fn keybind_fields_are_trimmed() {
    let (rest, kb) = parse_keybind_declaration("--  spaced out  \n(\"  M-s  \", act)").unwrap();
    assert_eq!(rest, s(""));
    assert_eq!(kb, KeybindToken(s("M-s"), s("spaced out")));
    assert!(parse_keybind_declaration("-- desc\n(\"   \", act)").is_err());
}
