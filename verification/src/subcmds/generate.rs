//! Generating a secret for an entry.
use crate::error::PassrsError;
use crate::style::{bold, fg_yellow, reset, underline};
use crate::text::push_str;
use vstd::prelude::*;

verus! {

/// The lines of an entry joined with `'\n'`.
pub open spec fn joined(lines: Seq<Seq<char>>) -> Seq<char>
    decreases lines.len(),
{
    if lines.len() == 0 {
        Seq::empty()
    } else if lines.len() == 1 {
        lines[0]
    } else {
        joined(lines.drop_last()) + "\n"@ + lines.last()
    }
}

/// Joining keeps every line, in order: joining two non-empty lists of lines
/// is joining each and putting a `'\n'` between them; a single line is
/// itself, and no lines are the empty text.
pub proof fn lemma_joined_concat(a: Seq<Seq<char>>, b: Seq<Seq<char>>)
    requires
        a.len() > 0,
        b.len() > 0,
    ensures
        joined(a + b) == joined(a) + "\n"@ + joined(b),
        joined(seq![b[0]]) == b[0],
        joined(Seq::<Seq<char>>::empty()) == Seq::<char>::empty(),
    decreases b.len(),
{
    if b.len() == 1 {
        assert((a + b).drop_last() =~= a);
        assert(b =~= seq![b[0]]);
    } else {
        lemma_joined_concat(a, b.drop_last());
        assert((a + b).drop_last() =~= a + b.drop_last());
        assert(joined(a + b) == joined(a + b.drop_last()) + "\n"@ + b.last());
        assert(joined(b) == joined(b.drop_last()) + "\n"@ + b.last());
    }
}

/// Putting a secret in place of the first line keeps the other lines: the
/// text is the secret alone where it was the only line, else the secret, a
/// `'\n'`, and the other lines joined.
pub proof fn lemma_first_line_replaced(lines: Seq<Seq<char>>, secret: Seq<char>)
    requires
        lines.len() > 0,
    ensures
        joined(lines.update(0, secret)) == if lines.len() == 1 {
            secret
        } else {
            secret + "\n"@ + joined(lines.drop_first())
        },
{
    if lines.len() > 1 {
        lemma_joined_concat(seq![secret], lines.drop_first());
        assert(lines.update(0, secret) =~= seq![secret] + lines.drop_first());
    }
}

/// The views of a list of lines.
pub open spec fn lines_of(v: Seq<String>) -> Seq<Seq<char>> {
    v.map_values(|s: String| s@)
}

/// Joins `lines` with `'\n'` (`[String]::join`).
pub fn join_lines(lines: &Vec<String>) -> (r: String)
    ensures
        r@ == joined(lines_of(lines@)),
{
    let mut out = String::new();
    let mut i: usize = 0;
    while i < lines.len()
        invariant
            i <= lines@.len(),
            out@ == joined(lines_of(lines@).take(i as int)),
        decreases lines.len() - i,
    {
        assert(lines_of(lines@).take(i + 1).drop_last() =~= lines_of(lines@).take(i as int));
        if i > 0 {
            push_str(&mut out, "\n");
        }
        push_str(&mut out, lines[i].as_str());
        i += 1;
    }
    assert(lines_of(lines@).take(lines.len() as int) =~= lines_of(lines@));
    out
}

/// The contents of an entry whose first line is replaced by `secret` (the
/// entry has at least one line).
pub fn replace_first_line(lines: Vec<String>, secret: &str) -> (r: String)
    requires
        lines@.len() > 0,
    ensures
        r@ == joined(lines_of(lines@).update(0, secret@)),
        r@ == if lines@.len() == 1 {
            secret@
        } else {
            secret@ + "\n"@ + joined(lines_of(lines@).drop_first())
        },
{
    let mut lines = lines;
    let ghost before = lines@;
    lines.set(0, secret.to_owned());
    assert(lines_of(lines@) =~= lines_of(before).update(0, secret@));
    proof {
        lemma_first_line_replaced(lines_of(before), secret@);
    }
    join_lines(&lines)
}

/// The length of a generated secret: the one asked for, else the configured
/// default.
pub fn secret_length(length: Option<usize>, default: usize) -> (r: usize)
    ensures
        r == match length {
            Some(n) => n,
            None => default,
        },
{
    match length {
        Some(n) => n,
        None => default,
    }
}

/// The commit message after generating the secret of `name`, in place (the
/// first line replaced) or as a new entry.
pub fn generate_commit_message(name: &str, in_place: bool) -> (r: String)
    ensures
        in_place ==> r@ == "Replace generated secret for "@ + name@,
        !in_place ==> r@ == "Save generated secret for "@ + name@,
{
    let mut m = if in_place {
        "Replace generated secret for ".to_owned()
    } else {
        "Save generated secret for ".to_owned()
    };
    push_str(&mut m, name);
    m
}

/// The announcement of the secret generated for `name`.
pub fn generated_message(name: &str, secret: &str) -> (r: String)
    ensures
        r@ == "\u{1b}[1m"@ + "The generated secret for "@ + "\u{1b}[4m"@ + name@ + "\u{1b}[m"@ + "\u{1b}[1m"@
            + " is:\n"@ + "\u{1b}[38;5;3m"@ + "\u{1b}[1m"@ + secret@ + "\u{1b}[m"@,
{
    let mut m = bold();
    push_str(&mut m, "The generated secret for ");
    let u = underline();
    push_str(&mut m, u.as_str());
    push_str(&mut m, name);
    let z = reset();
    push_str(&mut m, z.as_str());
    let b = bold();
    push_str(&mut m, b.as_str());
    push_str(&mut m, " is:\n");
    let y = fg_yellow();
    push_str(&mut m, y.as_str());
    push_str(&mut m, b.as_str());
    push_str(&mut m, secret);
    push_str(&mut m, z.as_str());
    m
}

/// The question asked before an existing entry `name` is overwritten.
pub fn overwrite_prompt(name: &str) -> (r: String)
    ensures
        r@ == "An entry exists for "@ + name@ + ". Overwrite it?"@,
{
    let mut m = "An entry exists for ".to_owned();
    push_str(&mut m, name);
    push_str(&mut m, ". Overwrite it?");
    m
}

/// The commit messages of adding and appending secrets.
#[derive(Debug, Clone, Copy, PartialEq, Eq, Structural)]
pub enum SecretCommit {
    /// `insert`: a secret entered by the user.
    Given,
    /// `otp insert`: a key URI.
    OtpInsert,
    /// `otp append`: a key URI added to an entry.
    OtpAppend,
}

/// The commit message of adding a secret to the entry `name`.
pub fn secret_commit_message(kind: SecretCommit, name: &str) -> (r: String)
    ensures
        kind is Given ==> r@ == "Add given secret for "@ + name@ + " to store"@,
        kind is OtpInsert ==> r@ == "Add OTP secret for "@ + name@ + " to store"@,
        kind is OtpAppend ==> r@ == "Append OTP secret for "@ + name@,
{
    match kind {
        SecretCommit::Given => {
            let mut m = "Add given secret for ".to_owned();
            push_str(&mut m, name);
            push_str(&mut m, " to store");
            m
        },
        SecretCommit::OtpInsert => {
            let mut m = "Add OTP secret for ".to_owned();
            push_str(&mut m, name);
            push_str(&mut m, " to store");
            m
        },
        SecretCommit::OtpAppend => {
            let mut m = "Append OTP secret for ".to_owned();
            push_str(&mut m, name);
            m
        },
    }
}

} // verus!
