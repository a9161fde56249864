use xuanmi_base_support::exception::{
    assert_throw, exception, throw, Cause, Exception, Outcome, TraitStdOptionToOutcome,
    TraitStdResultToOutcome,
};
use xuanmi_base_support::exception_names as EXN;

#[test]
fn new_exception_carries_the_sentinel_name() {
    let ex = Exception::new();
    assert_eq!(ex.get_name(), "Uncategorized");
    assert_eq!(ex.get_name(), EXN::UncategorizedException);
    assert_eq!(ex.get_context(), None);
    assert_eq!(ex.render(), "Exception \"Uncategorized\" occurs at \"\"\n");
    assert!(ex.render().contains("Uncategorized"));
}

#[test]
fn dummy_exception_is_named_dummy() {
    let ex = Exception::dummy();
    assert_eq!(ex.get_name(), "Dummy");
    assert_eq!(ex.render(), "Exception \"Dummy\" occurs at \"\"\n");
}

#[test]
fn unnamed_exception_keeps_sentinel_through_other_setters() {
    let mut ex = Exception::new();
    ex.set_file("lib.rs").set_line(3).set_column(9).set_context("why");
    assert!(ex.render().contains("Uncategorized"));
    assert_eq!(
        ex.render(),
        "Exception \"Uncategorized\" occurs at \"lib.rs:3:9\"\nContext: why\n"
    );
}

#[test]
fn empty_name_resets_to_the_sentinel() {
    let mut ex = Exception::new();
    ex.set_name("IO");
    assert_eq!(ex.get_name(), "IO");
    ex.set_name("");
    assert_eq!(ex.get_name(), "Uncategorized");
}

#[test]
fn setters_chain_and_the_last_one_wins() {
    let mut ex = Exception::new();
    ex.set_name("A").set_name("B").set_file("x").set_file("y").set_line(1).set_line(20);
    assert_eq!(ex.render(), "Exception \"B\" occurs at \"y:20\"\n");
}

#[test]
fn render_leaves_out_unknown_line_and_column() {
    let mut ex = Exception::new();
    ex.set_name("IO").set_file("main.rs");
    assert_eq!(ex.render(), "Exception \"IO\" occurs at \"main.rs\"\n");
    ex.set_column(7);
    assert_eq!(ex.render(), "Exception \"IO\" occurs at \"main.rs:7\"\n");
    ex.set_line(4294967295);
    assert_eq!(ex.render(), "Exception \"IO\" occurs at \"main.rs:4294967295:7\"\n");
    ex.set_line(10).set_column(0);
    assert_eq!(ex.render(), "Exception \"IO\" occurs at \"main.rs:10\"\n");
}

#[test]
fn render_trims_the_context_and_skips_a_blank_one() {
    let mut ex = Exception::new();
    ex.set_name("IO").set_context("  \t file missing \n ");
    assert_eq!(ex.get_context(), Some("  \t file missing \n "));
    assert_eq!(ex.render(), "Exception \"IO\" occurs at \"\"\nContext: file missing\n");
    ex.set_context(" \u{3000}\n\t ");
    assert_eq!(ex.render(), "Exception \"IO\" occurs at \"\"\n");
    ex.set_context("");
    assert_eq!(ex.get_context(), Some(""));
    assert_eq!(ex.render(), "Exception \"IO\" occurs at \"\"\n");
    ex.set_context("a  b");
    assert_eq!(ex.render(), "Exception \"IO\" occurs at \"\"\nContext: a  b\n");
}

#[test]
fn render_shows_the_chain_of_causes() {
    let mut inner = Exception::new();
    inner.set_name("IO").set_file("io.rs").set_line(8).set_column(2).set_context("no such file");
    let mut outer = Exception::new();
    outer
        .set_name("Deserialization")
        .set_file("conf.rs")
        .set_line(30)
        .set_column(11)
        .set_context("cannot load settings")
        .set_caused_by(Cause::Chained(inner));
    assert_eq!(
        outer.render(),
        "Exception \"Deserialization\" occurs at \"conf.rs:30:11\"\nContext: cannot load settings\nCaused by:\nException \"IO\" occurs at \"io.rs:8:2\"\nContext: no such file\n\n"
    );
}

#[test]
fn render_shows_a_plain_message_as_cause() {
    let mut ex = Exception::new();
    ex.set_name("HttpPost").set_caused_by(Cause::Message("connection refused".to_string()));
    assert_eq!(
        ex.render(),
        "Exception \"HttpPost\" occurs at \"\"\nCaused by:\nconnection refused\n"
    );
}

#[test]
fn exception_with_name_and_context_renders_both() {
    let ex = exception("IO", "file missing", "store.rs", 12, 5);
    let text = ex.render();
    assert!(text.contains("IO"));
    assert!(text.contains("file missing"));
    assert_eq!(text, "Exception \"IO\" occurs at \"store.rs:12:5\"\nContext: file missing\n");
}

#[test]
fn catch_passes_a_success_through() {
    let ok: Result<u32, String> = Ok(7);
    assert_eq!(ok.catch("IO", "ctx", "a.rs", 1, 1).ok(), Some(7));
    let ok: Result<u32, String> = Ok(8);
    assert_eq!(ok.catch_("a.rs", 1, 1).ok(), Some(8));
}

#[test]
fn catch_wraps_a_message_at_the_call_site() {
    let failed: Result<u32, String> = Err("boom".to_string());
    let ex = failed.catch("IO", "reading", "a.rs", 3, 14).err().unwrap();
    assert_eq!(ex.get_name(), "IO");
    assert_eq!(ex.get_context(), Some("reading"));
    assert_eq!(
        ex.render(),
        "Exception \"IO\" occurs at \"a.rs:3:14\"\nContext: reading\nCaused by:\nboom\n"
    );
}

#[test]
fn catch_wraps_any_displayable_error() {
    let parsed = "12x".parse::<u32>();
    let text = parsed.clone().err().unwrap().to_string();
    let ex = parsed.catch("Deserialization", "not a number", "p.rs", 6, 20).err().unwrap();
    assert_eq!(
        ex.render(),
        format!(
            "Exception \"Deserialization\" occurs at \"p.rs:6:20\"\nContext: not a number\nCaused by:\n{}\n",
            text
        )
    );
    let failed: Result<(), &str> = Err("plain words");
    let ex = failed.catch_("p.rs", 7, 1).err().unwrap();
    assert_eq!(
        ex.render(),
        "Exception \"Uncategorized\" occurs at \"p.rs:7:1\"\nCaused by:\nplain words\n"
    );
    assert_eq!("34".parse::<u32>().catch("Deserialization", "", "p.rs", 8, 1).ok(), Some(34));
}

#[test]
fn catch_nests_an_earlier_exception() {
    fn inner() -> Outcome<()> {
        let failed: Result<(), String> = Err("disk".to_string());
        failed.catch("IO", "open", "in.rs", 1, 2)
    }
    let ex = inner().catch("Outer", "", "out.rs", 9, 0).err().unwrap();
    assert_eq!(
        ex.render(),
        "Exception \"Outer\" occurs at \"out.rs:9\"\nCaused by:\nException \"IO\" occurs at \"in.rs:1:2\"\nContext: open\nCaused by:\ndisk\n\n"
    );
}

#[test]
fn bare_catch_uses_the_sentinel_and_no_context() {
    let failed: Result<u32, String> = Err("boom".to_string());
    let ex = failed.catch_("a.rs", 4, 4).err().unwrap();
    assert_eq!(ex.get_name(), "Uncategorized");
    assert_eq!(ex.get_context(), Some(""));
    assert_eq!(
        ex.render(),
        "Exception \"Uncategorized\" occurs at \"a.rs:4:4\"\nCaused by:\nboom\n"
    );
}

#[test]
fn ifnone_hands_out_a_present_value() {
    assert_eq!(Some(5).ifnone("Missing", "ctx", "a.rs", 1, 1).ok(), Some(5));
    assert_eq!(Some("x").ifnone_("a.rs", 1, 1).ok(), Some("x"));
}

#[test]
fn ifnone_reports_name_and_context_for_an_absent_value() {
    let absent: Option<u8> = None;
    let ex = absent.ifnone("IndexOutOfBound", "no third item", "list.rs", 40, 8).err().unwrap();
    assert_eq!(ex.get_name(), "IndexOutOfBound");
    assert_eq!(ex.get_context(), Some("no third item"));
    assert_eq!(
        ex.render(),
        "Exception \"IndexOutOfBound\" occurs at \"list.rs:40:8\"\nContext: no third item\n"
    );
}

#[test]
fn bare_ifnone_uses_the_sentinel() {
    let absent: Option<u8> = None;
    let ex = absent.ifnone_("list.rs", 41, 8).err().unwrap();
    assert_eq!(ex.get_name(), "Uncategorized");
    assert_eq!(ex.render(), "Exception \"Uncategorized\" occurs at \"list.rs:41:8\"\n");
}

#[test]
fn throw_returns_from_the_enclosing_operation() {
    fn halve(n: u32) -> Outcome<u32> {
        if n % 2 == 1 {
            return throw("Arithmetic", "odd number", "math.rs", 5, 13);
        }
        Ok(n / 2)
    }
    assert_eq!(halve(8).ok(), Some(4));
    let ex = halve(7).err().unwrap();
    assert_eq!(ex.get_name(), EXN::ArithmeticException);
    assert_eq!(
        ex.render(),
        "Exception \"Arithmetic\" occurs at \"math.rs:5:13\"\nContext: odd number\n"
    );
}

#[test]
fn assert_throw_succeeds_when_the_condition_holds() {
    assert!(assert_throw(1 + 1 == 2, "1 + 1 == 2", None, None, "t.rs", 1, 1).is_ok());
}

#[test]
fn assert_throw_quotes_condition_and_explanation() {
    let ex = assert_throw(false, "len > 0", Some("EmptyInput"), Some("need one item"), "t.rs", 2, 3)
        .err()
        .unwrap();
    assert_eq!(ex.get_name(), "EmptyInput");
    assert_eq!(ex.get_context(), Some("Condition: len > 0\nExplanation: need one item"));
    assert_eq!(
        ex.render(),
        "Exception \"EmptyInput\" occurs at \"t.rs:2:3\"\nContext: Condition: len > 0\nExplanation: need one item\n"
    );
}

#[test]
fn assert_throw_defaults_name_and_omits_missing_explanation() {
    let ex = assert_throw(false, "x < y", None, None, "t.rs", 2, 3).err().unwrap();
    assert_eq!(ex.get_name(), "AssertionFailed");
    assert_eq!(ex.get_context(), Some("Condition: x < y"));
    let ex = assert_throw(false, "x < y", None, Some("order"), "t.rs", 2, 3).err().unwrap();
    assert_eq!(ex.get_name(), EXN::AssertionFailedException);
    assert_eq!(ex.get_context(), Some("Condition: x < y\nExplanation: order"));
}

#[test]
fn display_and_debug_forms_are_the_rendering() {
    let failed: Result<u32, String> = Err("boom".to_string());
    let ex = failed.catch("IO", "reading", "a.rs", 3, 14).err().unwrap();
    assert_eq!(ex.to_string(), ex.render());
    assert_eq!(ex.to_debug_string(), ex.render());
}

#[test]
fn exceptions_cross_thread_boundaries() {
    fn needs_send_sync<T: Send + Sync>(_: &T) {}
    let ex = exception("IO", "ctx", "a.rs", 1, 1);
    needs_send_sync(&ex);
}
