//! The plain parts of what a front end prints: short forms, widths and the
//! pieces of a list line. Colours and links are left to the front end.

use vstd::prelude::*;
use vstd::string::{StrSliceExecFns, StringExecFns};
use crate::models::{Issue, IssueView};
use crate::store::issue_views;
use crate::text::{decimal, decimal_text, upper, upper_case};

verus! {

/// The short form of a reaction kind's name; `?` for an unknown name.
pub open spec fn ascii_of(kind: Seq<char>) -> Seq<char> {
    if kind == "+1"@ {
        "[+1]"@
    } else if kind == "-1"@ {
        "[-1]"@
    } else if kind == "laugh"@ {
        ":D"@
    } else if kind == "hooray"@ {
        "^_^"@
    } else if kind == "confused"@ {
        ":/"@
    } else if kind == "heart"@ {
        "<3"@
    } else if kind == "rocket"@ {
        "^^"@
    } else if kind == "eyes"@ {
        "o_o"@
    } else {
        "?"@
    }
}

/// Whether the text is the given word.
fn is_word(text: &String, word: &'static str) -> (r: bool)
    ensures
        r == (text@ == word@),
{
    let word: String = word.to_owned();
    *text == word
}

/// The short form under which a reaction kind is printed.
pub fn reaction_to_ascii(reaction_type: &str) -> (r: &'static str)
    ensures
        r@ == ascii_of(reaction_type@),
{
    let kind: String = reaction_type.to_owned();
    if is_word(&kind, "+1") {
        "[+1]"
    } else if is_word(&kind, "-1") {
        "[-1]"
    } else if is_word(&kind, "laugh") {
        ":D"
    } else if is_word(&kind, "hooray") {
        "^_^"
    } else if is_word(&kind, "confused") {
        ":/"
    } else if is_word(&kind, "heart") {
        "<3"
    } else if is_word(&kind, "rocket") {
        "^^"
    } else if is_word(&kind, "eyes") {
        "o_o"
    } else {
        "?"
    }
}

/// The number of characters that a number takes when written in decimal.
pub open spec fn decimal_width(number: int) -> nat {
    decimal_text(number).len()
}

/// The number of characters that an issue number takes.
pub fn number_width(number: i32) -> (r: usize)
    ensures
        r == decimal_width(number as int),
{
    decimal(number as i64).as_str().unicode_len()
}

/// The widest of the issues' numbers, and 1 where there is no issue.
pub open spec fn widest_number(rows: Seq<IssueView>) -> nat
    decreases rows.len(),
{
    if rows.len() == 0 {
        1
    } else {
        let others = widest_number(rows.drop_last());
        let last = decimal_width(rows.last().number);
        if rows.len() > 1 && others > last {
            others
        } else {
            last
        }
    }
}

/// The width to which the numbers of a list are padded: that of the widest.
pub fn list_number_width(rows: &Vec<Issue>) -> (r: usize)
    ensures
        r == widest_number(issue_views(rows@)),
{
    let mut widest: usize = 1;
    let mut i: usize = 0;
    while i < rows.len()
        invariant
            i <= rows.len(),
            widest == widest_number(issue_views(rows@).take(i as int)),
        decreases rows.len() - i,
    {
        let width = number_width(rows[i].number);
        proof {
            let upto = issue_views(rows@).take(i as int + 1);
            assert(upto.drop_last() =~= issue_views(rows@).take(i as int));
            assert(upto.last() == rows@[i as int]@);
        }
        if i == 0 || width > widest {
            widest = width;
        }
        i += 1;
    }
    proof {
        assert(issue_views(rows@).take(rows.len() as int) =~= issue_views(rows@));
    }
    widest
}

/// Whether `i` is where the first `T` of the text stands, or the text's
/// length where it has none.
pub open spec fn date_ends_at(text: Seq<char>, i: int) -> bool {
    &&& 0 <= i <= text.len()
    &&& forall|k: int| 0 <= k < i ==> text[k] != 'T'
    &&& i < text.len() ==> text[i] == 'T'
}

/// The date of a creation time: what stands before its first `T`, and all
/// of it where it has none.
pub fn date_part(created_at: &str) -> (r: &str)
    ensures
        exists|i: int| date_ends_at(created_at@, i) && r@ == created_at@.take(i),
{
    let len = created_at.unicode_len();
    let mut i: usize = 0;
    while i < len && created_at.get_char(i) != 'T'
        invariant
            i <= len,
            len == created_at@.len(),
            forall|k: int| 0 <= k < i ==> created_at@[k] != 'T',
        decreases len - i,
    {
        i += 1;
    }
    assert(date_ends_at(created_at@, i as int));
    let date = created_at.substring_char(0, i);
    assert(created_at@.subrange(0, i as int) =~= created_at@.take(i as int));
    date
}

/// As many blanks as asked for.
pub open spec fn blanks(count: nat) -> Seq<char> {
    Seq::new(count, |i: int| ' ')
}

/// A text moved to the right edge of a field of the given width; a text
/// wider than the field is left as it is.
pub open spec fn right_aligned(text: Seq<char>, width: nat) -> Seq<char> {
    if text.len() >= width {
        text
    } else {
        blanks((width - text.len()) as nat) + text
    }
}

/// Pads a text with blanks on the left up to the given width.
pub fn pad_left(text: &str, width: usize) -> (r: String)
    ensures
        r@ == right_aligned(text@, width as nat),
{
    let len = text.unicode_len();
    let mut padded = String::new();
    let mut i: usize = len;
    proof {
        assert(padded@ =~= blanks(0));
    }
    while i < width
        invariant
            len <= i,
            len < width ==> i <= width,
            len >= width ==> i == len,
            padded@ == blanks((i - len) as nat),
        decreases width - i,
    {
        proof {
            reveal_strlit(" ");
            assert(blanks((i - len) as nat) + " "@ =~= blanks((i + 1 - len) as nat));
        }
        padded.append(" ");
        i += 1;
    }
    let ghost filled = padded@;
    padded.append(text);
    proof {
        if len >= width {
            assert(filled + text@ =~= text@);
        } else {
            assert(filled == blanks((width - len) as nat));
        }
    }
    padded
}

/// The label of an issue in a list: `#` and the number, moved to the right
/// edge of the given width.
pub open spec fn number_label_text(number: int, width: nat) -> Seq<char> {
    "#"@ + right_aligned(decimal_text(number), width)
}

/// The label under which a list shows an issue's number.
pub fn number_label(number: i32, width: usize) -> (r: String)
    ensures
        r@ == number_label_text(number as int, width as nat),
{
    let digits = decimal(number as i64);
    let padded = pad_left(digits.as_str(), width);
    let mut label = "#".to_owned();
    label.append(padded.as_str());
    label
}

/// The address of an issue or pull request on the web.
pub open spec fn issue_url_text(
    user: Seq<char>,
    name: Seq<char>,
    number: int,
    pull_request: bool,
) -> Seq<char> {
    "https://github.com/"@ + user + "/"@ + name + if pull_request {
        "/pull/"@
    } else {
        "/issues/"@
    } + decimal_text(number)
}

/// The address under which an issue, or with `pull_request` a pull request,
/// is found on the web.
pub fn issue_url(user: &str, name: &str, number: i32, pull_request: bool) -> (r: String)
    ensures
        r@ == issue_url_text(user@, name@, number as int, pull_request),
{
    let mut url = "https://github.com/".to_owned();
    url.append(user);
    url.append("/");
    url.append(name);
    if pull_request {
        url.append("/pull/");
    } else {
        url.append("/issues/");
    }
    url.append(decimal(number as i64).as_str());
    url
}

/// The address of an author on the web.
pub fn author_url(author: &str) -> (r: String)
    ensures
        r@ == "https://github.com/"@ + author@,
{
    let mut url = "https://github.com/".to_owned();
    url.append(author);
    url
}

/// A piece added to a line: after a blank, unless the line is empty.
pub open spec fn spaced(line: Seq<char>, piece: Seq<char>) -> Seq<char> {
    if line.len() == 0 {
        piece
    } else {
        line + " "@ + piece
    }
}

/// What a list says of an issue beside number and title: its kind where
/// kinds are shown, its state in upper case where states are shown, and the
/// date of its creation.
pub open spec fn metadata_text(row: IssueView, show_type: bool, show_state: bool) -> Seq<char> {
    let kind = if show_type {
        if row.is_pull_request {
            "PR"@
        } else {
            "ISSUE"@
        }
    } else {
        Seq::empty()
    };
    let state = if show_state {
        spaced(kind, upper_case(row.state))
    } else {
        kind
    };
    spaced(state, date_of(row.created_at))
}

/// What stands before the first `T` of a creation time.
pub open spec fn date_of(created_at: Seq<char>) -> Seq<char> {
    created_at.take(choose|i: int| date_ends_at(created_at, i))
}

/// The end of the date is where the first `T` stands, and nowhere else.
pub proof fn lemma_date_end_unique(text: Seq<char>, i: int, j: int)
    requires
        date_ends_at(text, i),
        date_ends_at(text, j),
    ensures
        i == j,
{
}

/// Adds a piece to a line, after a blank unless the line is empty.
fn add_spaced(line: &mut String, piece: &str)
    ensures
        final(line)@ == spaced(old(line)@, piece@),
{
    if line.as_str().unicode_len() > 0 {
        line.append(" ");
    }
    line.append(piece);
    proof {
        if old(line)@.len() == 0 {
            assert(old(line)@ + piece@ =~= piece@);
        }
    }
}

/// The part of a list line that tells kind, state and date.
pub fn line_metadata(issue: &Issue, show_type: bool, show_state: bool) -> (r: String)
    ensures
        r@ == metadata_text(issue@, show_type, show_state),
{
    let mut line = String::new();
    if show_type {
        if issue.is_pull_request {
            line.append("PR");
        } else {
            line.append("ISSUE");
        }
        proof {
            assert(Seq::<char>::empty() + "PR"@ =~= "PR"@);
            assert(Seq::<char>::empty() + "ISSUE"@ =~= "ISSUE"@);
        }
    }
    if show_state {
        let state = upper(issue.state.as_str());
        add_spaced(&mut line, state.as_str());
    }
    let date = date_part(issue.created_at.as_str());
    proof {
        let i = choose|i: int| date_ends_at(issue@.created_at, i) && date@ == issue@.created_at.take(i);
        let j = choose|j: int| date_ends_at(issue@.created_at, j);
        lemma_date_end_unique(issue@.created_at, i, j);
    }
    add_spaced(&mut line, date);
    line
}

/// A text that a terminal shows as a link to an address: the address
/// between the opening marks, the text, and the closing marks.
pub open spec fn link_text(text: Seq<char>, url: Seq<char>) -> Seq<char> {
    "\u{1b}]8;;"@ + url + "\u{1b}\\"@ + text + "\u{1b}]8;;\u{1b}\\"@
}

/// Writes a link with `terminal_link::Link::new` and its `Display`. Believed,
/// not proved: a link without an id is written as the opening marks around
/// the address, the text, and the closing marks.
#[verifier::external_body]
fn link(text: &str, url: &str) -> (r: String)
    ensures
        r@ == link_text(text@, url@),
{
    terminal_link::Link::new(text, url).to_string()
}

/// The number of an issue as a list shows it: its label, linked to its
/// address on the web.
pub fn number_link(user: &str, name: &str, number: i32, width: usize, pull_request: bool) -> (r:
    String)
    ensures
        r@ == link_text(
            number_label_text(number as int, width as nat),
            issue_url_text(user@, name@, number as int, pull_request),
        ),
{
    let label = number_label(number, width);
    let url = issue_url(user, name, number, pull_request);
    link(label.as_str(), url.as_str())
}

/// An author's name, linked to the author's address on the web.
pub fn author_link(author: &str) -> (r: String)
    ensures
        r@ == link_text(author@, "https://github.com/"@ + author@),
{
    let url = author_url(author);
    link(author, url.as_str())
}

/// No number of a list is wider than the widest.
pub proof fn lemma_widest_bounds(rows: Seq<IssueView>, k: int)
    requires
        0 <= k < rows.len(),
    ensures
        decimal_width(rows[k].number) <= widest_number(rows),
    decreases rows.len(),
{
    if k < rows.len() - 1 {
        lemma_widest_bounds(rows.drop_last(), k);
    }
}

/// The numbers of a list line up: padded to the width of the widest, the
/// label of every issue is as long as that width and the `#` before it.
pub proof fn law_number_labels_align(rows: Seq<IssueView>, k: int)
    requires
        0 <= k < rows.len(),
    ensures
        number_label_text(rows[k].number, widest_number(rows)).len() == 1 + widest_number(rows),
{
    lemma_widest_bounds(rows, k);
    reveal_strlit("#");
}

} // verus!
