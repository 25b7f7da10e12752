use github_issues_rs::models::Issue;
use github_issues_rs::names::parse_repository;
use github_issues_rs::remote::{authorization, page_url, ACCEPT, API_VERSION, PAGE_SIZE, USER_AGENT};
use github_issues_rs::render::{
    author_link, author_url, date_part, issue_url, line_metadata, list_number_width, number_label,
    number_link, number_width, pad_left, reaction_to_ascii,
};

fn issue(number: i32, state: &str, is_pull_request: bool, created_at: &str) -> Issue {
    Issue {
        id: 1,
        repository_id: 1,
        number,
        title: "title".to_string(),
        body: String::new(),
        created_at: created_at.to_string(),
        state: state.to_string(),
        is_pull_request,
        author: None,
        last_synced_at: None,
    }
}

#[test]
fn reactions_have_short_forms() {
    assert_eq!(reaction_to_ascii("+1"), "[+1]");
    assert_eq!(reaction_to_ascii("-1"), "[-1]");
    assert_eq!(reaction_to_ascii("laugh"), ":D");
    assert_eq!(reaction_to_ascii("hooray"), "^_^");
    assert_eq!(reaction_to_ascii("confused"), ":/");
    assert_eq!(reaction_to_ascii("heart"), "<3");
    assert_eq!(reaction_to_ascii("rocket"), "^^");
    assert_eq!(reaction_to_ascii("eyes"), "o_o");
    assert_eq!(reaction_to_ascii("Heart"), "?");
    assert_eq!(reaction_to_ascii(""), "?");
}

#[test]
fn the_width_of_a_number_is_that_of_its_decimal_text() {
    let numbers = [
        0,
        1,
        9,
        10,
        99,
        100,
        999,
        1_000,
        12_345,
        99_999,
        100_000,
        999_999,
        1_000_000,
        9_999_999,
        10_000_000,
        99_999_999,
        100_000_000,
        999_999_999,
        1_000_000_000,
        i32::MAX,
        -1,
        -9,
        -10,
        -12_345,
        i32::MIN,
    ];
    for n in numbers {
        assert_eq!(number_width(n), n.to_string().len(), "{}", n);
    }
    assert_eq!(number_width(7), 1);
    assert_eq!(number_width(i32::MIN), 11);
}

#[test]
fn a_list_is_as_wide_as_its_widest_number() {
    let rows = vec![issue(7, "open", false, ""), issue(1234, "open", false, ""), issue(56, "open", false, "")];
    assert_eq!(list_number_width(&rows), 4);
    assert_eq!(list_number_width(&vec![issue(-5, "open", false, "")]), 2);
    assert_eq!(list_number_width(&Vec::new()), 1);
}

#[test]
fn the_date_is_what_stands_before_the_first_t() {
    assert_eq!(date_part("2024-05-06T07:08:09Z"), "2024-05-06");
    assert_eq!(date_part("2024-05-06"), "2024-05-06");
    assert_eq!(date_part("T07:08"), "");
    assert_eq!(date_part(""), "");
    assert_eq!(date_part("aTbTc"), "a");
    assert_eq!(date_part("été-T-x"), "été-");
    assert_eq!(date_part("2024-05-06t07"), "2024-05-06t07");
}

#[test]
fn texts_are_padded_on_the_left() {
    assert_eq!(pad_left("7", 3), "  7");
    assert_eq!(pad_left("123", 3), "123");
    assert_eq!(pad_left("1234", 3), "1234");
    assert_eq!(pad_left("", 2), "  ");
    assert_eq!(pad_left("é", 2), " é");
    assert_eq!(pad_left("x", 0), "x");
}

#[test]
fn number_labels_are_aligned() {
    assert_eq!(number_label(7, 3), "#  7");
    assert_eq!(number_label(123, 3), "#123");
    assert_eq!(number_label(-4, 1), "#-4");
    assert_eq!(number_label(42, 4), format!("#{:>width$}", 42, width = 4));
}

#[test]
fn addresses_name_owner_repository_and_number() {
    assert_eq!(issue_url("octo", "demo", 12, false), "https://github.com/octo/demo/issues/12");
    assert_eq!(issue_url("octo", "demo", 12, true), "https://github.com/octo/demo/pull/12");
    assert_eq!(author_url("octocat"), "https://github.com/octocat");
}

#[test]
fn links_wrap_text_in_terminal_marks() {
    let label = "#  7";
    let url = "https://github.com/octo/demo/issues/7";
    let expected = format!("\u{1b}]8;;{}\u{1b}\\{}\u{1b}]8;;\u{1b}\\", url, label);
    assert_eq!(number_link("octo", "demo", 7, 3, false), expected);
    assert_eq!(
        number_link("octo", "demo", 7, 3, false),
        terminal_link::Link::new(label, url).to_string()
    );
    assert_eq!(
        author_link("octocat"),
        "\u{1b}]8;;https://github.com/octocat\u{1b}\\octocat\u{1b}]8;;\u{1b}\\"
    );
}

#[test]
fn metadata_tells_kind_state_and_date() {
    let plain = issue(1, "open", false, "2024-05-06T07:08:09Z");
    let pull = issue(2, "closed", true, "2023-01-02T00:00:00Z");
    assert_eq!(line_metadata(&plain, false, false), "2024-05-06");
    assert_eq!(line_metadata(&plain, true, false), "ISSUE 2024-05-06");
    assert_eq!(line_metadata(&plain, false, true), "OPEN 2024-05-06");
    assert_eq!(line_metadata(&plain, true, true), "ISSUE OPEN 2024-05-06");
    assert_eq!(line_metadata(&pull, true, true), "PR CLOSED 2023-01-02");
    let bare = issue(3, "", false, "T00:00");
    assert_eq!(line_metadata(&bare, false, true), "");
    assert_eq!(line_metadata(&bare, true, true), "ISSUE  ");
    let odd = issue(4, "straße", false, "x");
    assert_eq!(line_metadata(&odd, false, true), "STRASSE x");
}

#[test]
fn repositories_are_named_owner_slash_name() {
    assert_eq!(
        parse_repository("octo/demo"),
        Some(("octo".to_string(), "demo".to_string()))
    );
    assert_eq!(parse_repository("/demo"), Some((String::new(), "demo".to_string())));
    assert_eq!(parse_repository("octo/"), Some(("octo".to_string(), String::new())));
    assert_eq!(parse_repository("/"), Some((String::new(), String::new())));
    assert_eq!(parse_repository("été/日本"), Some(("été".to_string(), "日本".to_string())));
    assert_eq!(parse_repository("octodemo"), None);
    assert_eq!(parse_repository(""), None);
    assert_eq!(parse_repository("a/b/c"), None);
    assert_eq!(parse_repository("a//b"), None);
}

#[test]
fn a_page_is_asked_for_by_its_number() {
    assert_eq!(
        page_url("octo", "demo", 1),
        "https://api.github.com/repos/octo/demo/issues?state=all&per_page=100&page=1"
    );
    assert_eq!(
        page_url("rust-lang", "rust", 4_294_967_295),
        "https://api.github.com/repos/rust-lang/rust/issues?state=all&per_page=100&page=4294967295"
    );
    assert_eq!(PAGE_SIZE, 100);
}

#[test]
fn requests_carry_the_fixed_headers_and_the_credential() {
    assert_eq!(authorization("abc123"), "Bearer abc123");
    assert_eq!(ACCEPT, "application/vnd.github+json");
    assert_eq!(API_VERSION, "2022-11-28");
    assert_eq!(USER_AGENT, "github_issues_rs");
}
