use zudb_js::buffer::LogicalType;
use zudb_js::conn::{Connection, CLOSED};
use zudb_js::frame::{Described, Frame, Held, Layout, Place};
use zudb_js::js::Js;
use zudb_js::register::{closed, has_table, identifier, read, RegisterTask, UnregisterTask, TWICE};
use zudb_js::value::{Ints, Spelling};

fn frame(names: &[&str]) -> Frame {
    let columns = names
        .iter()
        .map(|name| Described {
            name: name.to_string(),
            ty: LogicalType::Bool,
            layout: Layout::Bool { place: Place::Lent { id: 0, at: 0 } },
        })
        .collect();
    Frame { columns, rows: 3, held: Held::new() }
}

fn no_name(name: &str, what: &str) -> String {
    format!(
        "'{name}' is not a name a statement can carry, and {what} is named by a letter or an underscore followed by \
         letters, digits or underscores"
    )
}

#[test]
fn a_name_is_an_identifier() {
    for name in ["a", "_", "Person", "x9_", "_1"] {
        assert_eq!(identifier(name, "a column"), Ok(()), "{name}");
    }
    for name in ["", "1a", "a b", "a-b", "\u{e9}t\u{e9}", "a$", "-"] {
        assert_eq!(identifier(name, "a column"), Err(no_name(name, "a column")), "{name}");
    }
}

#[test]
fn a_frame_is_read_under_a_name() {
    assert!(matches!(read("people", Ok(frame(&["id", "name"]))), Ok(f) if f.rows == 3));
    assert_eq!(read("no way", Err("unread".to_string())).err(), Some(no_name("no way", "a registered frame")));
    assert_eq!(read("people", Err("unread".to_string())).err(), Some("unread".to_string()));
    assert_eq!(
        read("people", Ok(frame(&[]))).err(),
        Some("this frame has no columns, and a table whose rows hold nothing is not a table".to_string())
    );
    assert_eq!(
        read("people", Ok(frame(&["id", "full name", "also bad"]))).err(),
        Some(no_name("full name", "a column of a registered frame"))
    );
}

#[test]
fn a_registration_runs_once() {
    let mut task = RegisterTask::new("people".to_string(), Some(frame(&["id"])), None);
    assert!(task.take().is_ok());
    assert_eq!(task.take().err(), Some(TWICE.to_string()));
    let mut refused = RegisterTask::new(String::new(), None, Some("no".to_string()));
    assert_eq!(refused.take().err(), Some("no".to_string()));
}

#[test]
fn a_stored_table_is_not_hidden() {
    let (nodes, rels) = (vec!["person".to_string()], vec!["knows".to_string()]);
    assert!(has_table(&nodes, &rels, "person") && has_table(&nodes, &rels, "knows"));
    assert!(!has_table(&nodes, &rels, "Person"));
    let task = |name: &str| RegisterTask::new(name.to_string(), None, None);
    assert_eq!(task("people").free(&nodes, &rels), Ok(()));
    assert_eq!(
        task("knows").free(&nodes, &rels),
        Err(
            "'knows' is already a table of this database, and registering over one would hide rows this frame knows \
             nothing about"
                .to_string()
        )
    );
}

#[test]
fn only_a_registered_name_is_taken_away() {
    let task = UnregisterTask::new("people".to_string(), None);
    assert_eq!(task.answer(true), Ok(()));
    assert_eq!(
        task.answer(false),
        Err(
            "nothing is registered here as 'people', and a name this connection did not register is a table of the \
             database rather than a frame of the caller's"
                .to_string()
        )
    );
    assert_eq!(closed(), CLOSED);
}

#[test]
fn a_call_to_register_is_read_on_the_connection() {
    let conn = Connection::new(Spelling { ints: Ints::BigInt, temporal: false }, "p".to_string(), false, false);
    let task = conn.register(&Js::Text("people".to_string()), Ok(frame(&["id"])));
    assert!(task.name == "people" && task.refused.is_none() && task.described.is_some());
    let task = conn.register(&Js::Null, Ok(frame(&["id"])));
    assert_eq!(task.refused, Some("the name is null, and a name is a string".to_string()));
    let task = conn.register(&Js::Text("people".to_string()), Ok(frame(&["i d"])));
    assert!(task.name.is_empty() && task.described.is_none());
    assert_eq!(task.refused, Some(no_name("i d", "a column of a registered frame")));
    let gone = conn.unregister(&Js::Text("people".to_string()));
    assert!(gone.name == "people" && gone.refused.is_none());
    assert!(conn.registered().refused.is_none());
}
