use apekey::parser::KeybindToken;
use apekey::parser::Parsed;
use apekey::parser::Section;
use apekey::parser::parse_boundary;
use apekey::parser::parse_entry;
use apekey::parser::parse_hs_comment_seq;
use apekey::parser::parse_keybind_comment;
use apekey::parser::parse_keybind_declaration;
use apekey::parser::parse_keybind_definition;
use apekey::parser::parse_keybind_description;
use apekey::parser::parse_section;
use apekey::parser::parse_section_tag;

fn s(text: &str) -> String {
    text.to_string()
}

#[test]
fn hs_comment_seq_parsing() {
    assert_eq!(parse_hs_comment_seq("--"), Ok((s(""), ())));
    assert_eq!(parse_hs_comment_seq("--A comment"), Ok((s("A comment"), ())));
    assert_eq!(parse_hs_comment_seq(" -- A comment"), Ok((s("A comment"), ())));
    assert!(parse_hs_comment_seq("--> Not a comment").is_err());
    assert!(parse_hs_comment_seq("|-- Not a comment").is_err());
}

#[test]
fn boundary_parsing() {
    assert!(parse_boundary("--").is_err());
    assert!(parse_boundary("-- ").is_err());
    assert!(parse_boundary("-- a").is_err());
    assert_eq!(parse_boundary("-- #"), Ok((s(""), None)));
    assert_eq!(parse_boundary(" -- #"), Ok((s(""), None)));
    assert_eq!(parse_boundary(" -- # "), Ok((s(""), None)));
    assert_eq!(parse_boundary(" -- # Fool"), Ok((s("Fool"), None)));
    assert_eq!(parse_boundary(" -- # Fool\n"), Ok((s(""), Some(s("Fool")))));
    assert_eq!(parse_boundary("--#Fool\n"), Ok((s(""), Some(s("Fool")))));
    assert!(parse_boundary("-- ##").is_err());
    assert!(parse_boundary("--##").is_err());
    assert!(parse_boundary("-- ##Fool").is_err());
}

#[test]
fn boundary_parsing_multilines1() {
    assert_eq!(parse_boundary("\n                -- #   \n                "), Ok((s(""), None)));
}

#[test]
fn boundary_parsing_multilines2() {
    assert_eq!(
        parse_boundary(
            r#"
                -- # Title
                "#
        ),
        Ok((s(""), Some(s("Title"))))
    );
}

#[test]
fn section_tag_parsing() {
    assert!(parse_section_tag("--").is_err());
    assert!(parse_section_tag("-- ").is_err());
    assert!(parse_section_tag("-- a").is_err());
    assert_eq!(parse_section_tag("--##\n"), Ok((s(""), None)));
    assert_eq!(parse_section_tag("-- ##\n"), Ok((s(""), None)));
    assert_eq!(parse_section_tag("-- ##"), Ok((s(""), None)));
    assert_eq!(parse_section_tag(" -- ##\n"), Ok((s(""), None)));
    assert_eq!(parse_section_tag(" -- ## \n"), Ok((s(""), None)));
    assert_eq!(parse_section_tag(" -- ## Fool\n"), Ok((s(""), Some(s("Fool")))));
    assert_eq!(parse_section_tag(" -- ## Fool"), Ok((s("Fool"), None)));
    assert_eq!(parse_section_tag("--##Fool\n"), Ok((s(""), Some(s("Fool")))));
    assert_eq!(parse_section_tag("-- ## -- ##\n"), Ok((s(""), Some(s("-- ##")))));
    assert!(parse_section_tag("-- #").is_err());
    assert!(parse_section_tag("-- # #").is_err());
    assert!(parse_section_tag("--#").is_err());
    assert!(parse_section_tag("-- #Fool").is_err());
}

#[test]
fn section_tag_parsing_multilines1() {
    assert_eq!(
        parse_section_tag("\n                -- ##   \n                "),
        Ok((s(""), None))
    );
}

#[test]
fn section_tag_parsing_multilines2() {
    assert_eq!(
        parse_section_tag(
            r#"
                -- ## A Section
                "#
        ),
        Ok((s(""), Some(s("A Section"))))
    );
}

#[test]
fn keybind_definition_parsing() {
    assert_eq!(parse_keybind_definition(r#"("M-t")"#), Ok((s(""), s("M-t"))));
    assert_eq!(parse_keybind_definition(r#", ("M-t", stuff)"#), Ok((s(""), s("M-t"))));
    assert_eq!(parse_keybind_definition(r#", ( "M-)", stuff)"#), Ok((s(""), s("M-)"))));
    assert_eq!(parse_keybind_definition(r#", ( "M-t", stuff)"#), Ok((s(""), s("M-t"))));
    assert_eq!(
        parse_keybind_definition(
            r#", ( "M-<Space>",
                            stuff)"#
        ),
        Ok((s(""), s("M-<Space>")))
    );
}

#[test]
fn keybind_description_parsing() {
    assert_eq!(parse_keybind_description("--\n"), Ok((s(""), s(""))));
    assert_eq!(parse_keybind_description("--A description\n"), Ok((s(""), s("A description"))));
    assert_eq!(parse_keybind_description("-- A description\n"), Ok((s(""), s("A description"))));
    assert_eq!(parse_keybind_description(" -- A description\n"), Ok((s(""), s("A description"))));
    assert!(parse_keybind_description("-- ! Ignored keybind\n").is_err());
    assert!(parse_keybind_description("--! Ignored keybind\n").is_err());
}

#[test]
fn keybind_declaration_parsing() {
    assert_eq!(
        parse_keybind_declaration(
            r#"  -- Recompile and restart XMonad
    ("M-C-q",       spawn "xmonad --recompile; xmonad --restart")"#
        ),
        Ok((s(""), KeybindToken(s("M-C-q"), s("Recompile and restart XMonad"))))
    );
    assert_eq!(
        parse_keybind_declaration(
            r#"  -- Recompile and restart XMonad
    ("M-C-q",
        spawn "xmonad --recompile; xmonad --restart")"#
        ),
        Ok((s(""), KeybindToken(s("M-C-q"), s("Recompile and restart XMonad"))))
    );
    assert!(parse_keybind_declaration(
        r#"  -- Open a terminal
  , ("M-t,         spawn $ myTerminal)"#
    )
    .is_err());
    assert!(parse_keybind_declaration(r#" , ("M-t", spawn $ myTerminal)"#).is_err());
    assert!(parse_keybind_declaration(
        r#"  -- Open a terminal
              "#
    )
    .is_err());
    assert!(parse_keybind_declaration(
        r#" -- ! Kill current window
                , ("M-x",  kill)"#
    )
    .is_err());
}

#[test]
fn keybind_inline_parsing() {
    assert_eq!(
        parse_keybind_comment("-- \"M-<[]>\" Move to next/previous screen\n"),
        Ok((s(""), KeybindToken(s("M-<[]>"), s("Move to next/previous screen"))))
    );
    assert_eq!(
        parse_keybind_comment("--\"M-<[]>\"Move to next/previous screen\n"),
        Ok((s(""), KeybindToken(s("M-<[]>"), s("Move to next/previous screen"))))
    );
    assert!(parse_keybind_comment("--# \"M-d\" description\n").is_err());
    assert!(parse_keybind_comment("-- # \"M-d\" description\n").is_err());
    assert!(parse_keybind_comment("-- \"M-d description\n").is_err());
    assert!(parse_keybind_comment("-- M-d description\n").is_err());
    assert!(parse_keybind_comment("-- ! \"M-t\"Open a terminal\n").is_err());
}

#[test]
fn parse_empty_section1() {
    assert_eq!(parse_section(r#" -- ##"#), Ok((s(""), Section { ..Default::default() })));
}

#[test]
fn parse_empty_section2() {
    assert_eq!(
        parse_section(
            r#" -- ##

                "#
        ),
        Ok((s(""), Section { ..Default::default() }))
    );
}

#[test]
fn parse_empty_section3() {
    assert_eq!(
        parse_section(
            r#" -- ## -- ##
                "#
        ),
        Ok((s(""), Section { title: Some(s("-- ##")), ..Default::default() }))
    );
}

#[test]
fn parse_empty_section4() {
    assert_eq!(
        parse_section(" \n                -- ## Section\n                -- ## Another Section"),
        Ok((
            s("-- ## Another Section"),
            Section { title: Some(s("Section")), keybinds: vec![] }
        ))
    );
}

#[test]
fn parse_empty_section5() {
    assert_eq!(
        parse_section(
            r#" -- ## Section
                "#
        ),
        Ok((s(""), Section { title: Some(s("Section")), keybinds: vec![] }))
    );
}

#[test]
fn parse_empty_section6() {
    assert_eq!(
        parse_section(
            r#" -- ## -- ##
                  "#
        ),
        Ok((s(""), Section { title: Some(s("-- ##")), keybinds: vec![] }))
    );
}

#[test]
fn parse_section_stop_on_end_tag() {
    assert_eq!(
        parse_section(
            r#" -- ## Section
                    -- "M-a" desc for A
                    -- #
                    -- "M-b" desc for B
                  "#
        ),
        Ok((
            s("-- #\n                    -- \"M-b\" desc for B\n                  "),
            Section {
                title: Some(s("Section")),
                keybinds: vec![KeybindToken(s("M-a"), s("desc for A"))]
            }
        ))
    );
}

#[test]
fn parse_section_with_garbage1() {
    assert_eq!(
        parse_section(
            r#"
  -- ## A section
  -- simple comment
  "#
        ),
        Ok((s(""), Section { title: Some(s("A section")), keybinds: vec![] }))
    );
}

#[test]
fn parse_section_with_garbage2() {
    assert_eq!(
        parse_section(
            r#"
  -- ## A section
  some haskell code
  "#
        ),
        Ok((s(""), Section { title: Some(s("A section")), keybinds: vec![] }))
    );
}

#[test]
fn parse_section1() {
    assert_eq!(
        parse_section(
            r#"
  -- ## A section
  -- "M-1" desc 1

  "#
        ),
        Ok((
            s(""),
            Section {
                title: Some(s("A section")),
                keybinds: vec![KeybindToken(s("M-1"), s("desc 1"))]
            }
        ))
    );
}

#[test]
fn parse_section2() {
    assert_eq!(
        parse_section(
            r#"
  -- ## A section
  -- "M-1" desc 1
  -- "M-2" desc 2
  "#
        ),
        Ok((
            s(""),
            Section {
                title: Some(s("A section")),
                keybinds: vec![
                    KeybindToken(s("M-1"), s("desc 1")),
                    KeybindToken(s("M-2"), s("desc 2")),
                ]
            }
        ))
    );
}

#[test]
fn parse_section3() {
    assert_eq!(
        parse_section(
            r#"
  -- ## A section
  -- "M-1" desc 1
  -- desc a
  , ("M-a",     spawn "lock.sh")
  "#
        ),
        Ok((
            s(""),
            Section {
                title: Some(s("A section")),
                keybinds: vec![
                    KeybindToken(s("M-1"), s("desc 1")),
                    KeybindToken(s("M-a"), s("desc a")),
                ]
            }
        ))
    );
}

#[test]
fn parse_section4() {
    assert_eq!(
        parse_section(
            r#"
  -- ## A section
  -- "M-1" desc 1
  -- desc a
  , ("M-a",     spawn "lock.sh")
  -- "M-2" desc 2
  -- desc b
  , ("M-b",     sendMessage (IncMasterN 1))
  "#
        ),
        Ok((
            s(""),
            Section {
                title: Some(s("A section")),
                keybinds: vec![
                    KeybindToken(s("M-1"), s("desc 1")),
                    KeybindToken(s("M-a"), s("desc a")),
                    KeybindToken(s("M-2"), s("desc 2")),
                    KeybindToken(s("M-b"), s("desc b")),
                ]
            }
        ))
    );
}

#[test]
fn parse_simple_case() {
    assert_eq!(
        parse_entry(
            r#"
        some code
        some code
        -- # Xmonad keymap
        -- #
        some code"#
        ),
        Ok((s("some code"), Parsed { title: Some(s("Xmonad keymap")), sections: vec![] }))
    );
}

#[test]
fn parse_real_case() {
    assert_eq!(
        parse_entry(
            r#"
        some code...
        -- # Xmonad keymap

        -- ## Section One

        -- "M-1" desc 1
        -- desc a
        , ("M-a",     spawn "lock.sh")

        -- "M-2" desc 2
        -- desc b
        , ("M-b",     sendMessage (IncMasterN 1))

        -- ## Section Two
        -- "M-1" desc 1
        -- "M-2" desc 2
        --! Nope
        , ("M-p",     hi)
        -- desc b
        , ("M-b",     sendMessage (IncMasterN 1))
        -- A simple comment

        -- a comment
        some code
        -- ## Section Three
        some code
        some code
        -- "M-t" desc t
        some code
        some code
        some code

        -- #

        some code...
        "#
        ),
        Ok((
            s("some code...\n        "),
            Parsed {
                title: Some(s("Xmonad keymap")),
                sections: vec![
                    Section {
                        title: Some(s("Section One")),
                        keybinds: vec![
                            KeybindToken(s("M-1"), s("desc 1")),
                            KeybindToken(s("M-a"), s("desc a")),
                            KeybindToken(s("M-2"), s("desc 2")),
                            KeybindToken(s("M-b"), s("desc b")),
                        ]
                    },
                    Section {
                        title: Some(s("Section Two")),
                        keybinds: vec![
                            KeybindToken(s("M-1"), s("desc 1")),
                            KeybindToken(s("M-2"), s("desc 2")),
                            KeybindToken(s("M-b"), s("desc b")),
                        ]
                    },
                    Section {
                        title: Some(s("Section Three")),
                        keybinds: vec![KeybindToken(s("M-t"), s("desc t"))]
                    }
                ]
            }
        ))
    );
}
