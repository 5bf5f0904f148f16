use magictree::discover::ports::{fix_for, rewrite, scan, step_label, suggestion};
use magictree::discover::report::{FactKind, PortKind, PortLiteralFact};

fn literals(text: &str) -> Vec<(u16, PortKind, String)> {
    scan(text)
        .into_iter()
        .map(|literal| (literal.port, literal.kind, literal.literal))
        .collect()
}

#[test]
fn finds_port_flags() {
    assert_eq!(
        literals("next dev --turbo -p 3005"),
        vec![(3005, PortKind::Flag, "-p 3005".to_string())]
    );
    assert_eq!(
        literals("uvicorn app:app --port=8000"),
        vec![(8000, PortKind::Flag, "--port=8000".to_string())]
    );
    assert_eq!(
        literals("node server.js --http-port 9000"),
        vec![(9000, PortKind::Flag, "--http-port 9000".to_string())]
    );
    assert_eq!(
        literals("vite --port \"5173\""),
        vec![(5173, PortKind::Flag, "--port \"5173\"".to_string())]
    );
}

#[test]
fn flags_that_are_not_ports_are_ignored() {
    for text in [
        "mkdir -p build",
        "cp -p file",
        "docker compose -p myproject up",
        "next dev",
        "cargo build --profile release",
        "git commit -p3005",
    ] {
        assert!(scan(text).is_empty(), "{text}");
    }
}

#[test]
fn finds_assignments_and_urls() {
    assert_eq!(
        literals("PORT=3005 vite"),
        vec![(3005, PortKind::Assignment, "PORT=3005".to_string())]
    );
    assert_eq!(
        literals("DATABASE_PORT=\"5433\""),
        vec![(
            5433,
            PortKind::Assignment,
            "DATABASE_PORT=\"5433\"".to_string()
        )]
    );
    assert_eq!(
        literals("wait-on http://localhost:3005/health"),
        vec![(3005, PortKind::Url, "localhost:3005".to_string())]
    );
    assert_eq!(
        literals("psql -h 127.0.0.1:5433"),
        vec![(5433, PortKind::Url, "127.0.0.1:5433".to_string())]
    );
}

#[test]
fn variable_expansions_are_not_literals() {
    for text in [
        "${WT_PORT_DB:-5432}:5432",
        "-p ${APP_PORT:-3005}",
        "--port=${PORT}",
        "PORT=${PORT:-3005}",
        "wait-on http://localhost:${PORT}",
    ] {
        assert!(scan(text).is_empty(), "{text}");
    }
}

#[test]
fn small_numbers_after_a_colon_are_not_ports() {
    assert!(scan("12:30 and 3:2").is_empty());
}

#[test]
fn rewrites_flags_and_drops_inline_assignments() {
    assert_eq!(
        rewrite("next dev --turbo -p 3005", "APP_PORT").as_deref(),
        Some("next dev --turbo -p ${APP_PORT:-3005}")
    );
    assert_eq!(
        rewrite("wait-on http://localhost:3005/health", "APP_PORT").as_deref(),
        Some("wait-on http://localhost:${APP_PORT:-3005}/health")
    );
    assert_eq!(
        rewrite("PORT=3005 vite", "APP_PORT").as_deref(),
        Some("vite")
    );
    assert_eq!(rewrite("vite dev", "APP_PORT"), None);
}

fn pinned(kind: PortKind, literal: &str, text: &str) -> PortLiteralFact {
    PortLiteralFact {
        port: 3005,
        kind,
        literal: literal.to_string(),
        container: Some("dev".to_string()),
        text: text.to_string(),
    }
}

#[test]
fn advice_names_the_variable_and_the_rewrite() {
    let flag = pinned(PortKind::Flag, "-p 3005", "next dev -p 3005");
    assert_eq!(fix_for(&flag, "PORT").as_deref(), Some("next dev -p ${PORT:-3005}"));
    assert_eq!(
        suggestion(&flag, Some("PORT")),
        "read the port from `PORT` instead: `next dev -p ${PORT:-3005}`"
    );
    assert_eq!(
        suggestion(&flag, None),
        "no service in the manifest allocates this port: declare the one that should, then read its variable here"
    );
    let assignment = pinned(PortKind::Assignment, "PORT=3005", "PORT=3005");
    assert_eq!(fix_for(&assignment, "PORT"), None);
    assert_eq!(
        suggestion(&assignment, Some("PORT")),
        "leave `dev` without a value, or read the variable at runtime"
    );
}

#[test]
fn steps_are_named_after_their_file() {
    assert_eq!(step_label(FactKind::Node, "dev"), "script 'dev'");
    assert_eq!(step_label(FactKind::EnvExample, "PORT"), "variable 'PORT'");
    assert_eq!(step_label(FactKind::Mise, "dev"), "step 'dev'");
}

#[test]
fn literals_stand_where_they_say() {
    let text = "é --port 3005 http://localhost:5173";
    for literal in scan(text) {
        assert_eq!(&text[literal.start..literal.end], literal.literal);
    }
    assert_eq!(scan(text).len(), 2);
}
