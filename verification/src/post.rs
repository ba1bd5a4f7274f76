//! Enter's second act: the note the store just took, posted into the running
//! agent session. Nothing is written back, so no word here can mean
//! *delivered*; what this module decides is what the agent reads and what the
//! footer says.

use vstd::prelude::*;
use crate::text::{debug_of, debug_spelling, decimal, decimal_of, push_all, push_str, string_of};
use crate::render::right_aligned;
use crate::notes::Note;

verus! {

/// What Enter's post came to, and the only thing the footer is told.
#[derive(Debug, Clone, Copy, PartialEq, Eq, Structural)]
pub enum Posted {
    /// No session has registered against this worktree. Nothing was opened.
    Unregistered,
    /// At least one registered session took the line.
    Sent,
    /// Every registered session refused it, or the registry could not be read.
    Failed,
}

/// What a post came to, given what each registered session answered, one
/// answer per registration in the registry's order, or nothing where the
/// registry could not be read. The shell lists the registry and makes the
/// sends; this is the verdict. A registry that cannot be read is not an
/// empty one: nothing was sent, so the note only got as far as the store.
pub fn post_each(took: Option<&[bool]>) -> (r: Posted)
    ensures
        r == match took {
            None => Posted::Failed,
            Some(answers) => if answers@.len() == 0 {
                Posted::Unregistered
            } else if answers@.contains(true) {
                Posted::Sent
            } else {
                Posted::Failed
            },
        },
{
    match took {
        None => Posted::Failed,
        Some(answers) => {
            if answers.len() == 0 {
                return Posted::Unregistered;
            }
            let mut i: usize = 0;
            while i < answers.len()
                invariant
                    took == Some(answers),
                    answers@.len() > 0,
                    i <= answers@.len(),
                    forall|k: int| 0 <= k < i ==> !answers@[k],
                decreases answers@.len() - i,
            {
                if answers[i] {
                    assert(answers@.contains(true)) by {
                        assert(answers@[i as int] == true);
                    }
                    return Posted::Sent;
                }
                i += 1;
            }
            assert(!answers@.contains(true));
            Posted::Failed
        },
    }
}

/// What the footer says of a post, or nothing for the silence a reader with no
/// hook gets: `sent` claims only that the line left this process, and `noted`
/// that the store took it where no session did.
pub fn word(posted: Posted) -> (r: Option<&'static str>)
    ensures
        match posted {
            Posted::Unregistered => r is None,
            Posted::Sent => r matches Some(w) && w@ == "sent"@,
            Posted::Failed => r matches Some(w) && w@ == "noted"@,
        },
{
    match posted {
        Posted::Unregistered => None,
        Posted::Sent => Some("sent"),
        Posted::Failed => Some("noted"),
    }
}

/// Columns the widest line number of `context` takes, one where there is none.
pub open spec fn number_width(context: Seq<(u32, String)>) -> nat
    decreases context.len(),
{
    if context.len() == 0 {
        1
    } else {
        let rest = number_width(context.drop_last());
        let here = decimal(context.last().0 as nat).len();
        if context.len() == 1 {
            here
        } else if here > rest {
            here
        } else {
            rest
        }
    }
}

/// One line of context: a mark where it is the note's own line, its number
/// right-aligned in `width`, a rule, and its text.
pub open spec fn context_line(number: u32, text: Seq<char>, line: u32, width: nat) -> Seq<char> {
    seq![if number == line {
        '>'
    } else {
        ' '
    }, ' '] + right_aligned(decimal(number as nat), width) + " | "@ + text + seq!['\n']
}

/// The lines of `context` as the agent reads them.
pub open spec fn context_lines(context: Seq<(u32, String)>, line: u32, width: nat) -> Seq<char>
    decreases context.len(),
{
    if context.len() == 0 {
        Seq::empty()
    } else {
        context_lines(context.drop_last(), line, width) + context_line(
            context.last().0,
            context.last().1@,
            line,
            width,
        )
    }
}

/// What the agent reads, given how the id is quoted: the anchor, the reader's
/// words, the lines around it with the note's own marked, and how to resolve
/// it.
pub open spec fn content_text(path: Seq<char>, line: u32, body: Seq<char>, context: Seq<(u32, String)>, quoted: Seq<char>) -> Seq<char> {
    "vigia note on "@ + path + seq![':'] + decimal(line as nat) + "\n\n"@ + body + seq!['\n'] + (if context.len()
        == 0 {
        Seq::empty()
    } else {
        seq!['\n'] + context_lines(context, line, number_width(context))
    }) + "\nResolve it with the vigia MCP server: resolve(id: "@ + quoted
        + ", note: \"<one line saying what you did>\").\n"@
}

/// The widest line number of `context`, in columns.
fn width_of_numbers(context: &[(u32, String)]) -> (r: usize)
    ensures
        r == number_width(context@),
{
    let mut width: usize = 1;
    let mut i: usize = 0;
    while i < context.len()
        invariant
            i <= context@.len(),
            width == (if i == 0 {
                1
            } else {
                number_width(context@.take(i as int))
            }),
            width <= 10,
        decreases context@.len() - i,
    {
        let digits = decimal_of(context[i].0 as u64);
        proof {
            assert(context@.take(i as int + 1).drop_last() =~= context@.take(i as int));
            crate::render::lemma_decimal_digits(context@[i as int].0 as nat, 10);
            assert(crate::render::ten_to(10) == 10000000000) by {
                reveal_with_fuel(crate::render::ten_to, 11);
            }
        }
        if i == 0 || digits.len() > width {
            width = digits.len();
        }
        i += 1;
    }
    assert(context@.take(context@.len() as int) =~= context@);
    width
}

/// What the agent reads, given how the id is quoted.
pub fn content_with(note: &Note, context: &[(u32, String)], quoted: &str) -> (r: String)
    ensures
        r@ == content_text(note.path@, note.line, note.body@, context@, quoted@),
{
    let mut out: Vec<char> = Vec::new();
    push_str(&mut out, "vigia note on ");
    push_str(&mut out, note.path.as_str());
    out.push(':');
    let digits = decimal_of(note.line as u64);
    push_all(&mut out, digits.as_slice());
    push_str(&mut out, "\n\n");
    push_str(&mut out, note.body.as_str());
    out.push('\n');
    let ghost head = out@;
    if context.len() > 0 {
        let width = width_of_numbers(context);
        out.push('\n');
        let mut i: usize = 0;
        while i < context.len()
            invariant
                i <= context@.len(),
                width == number_width(context@),
                out@ == head + seq!['\n'] + context_lines(context@.take(i as int), note.line, width as nat),
            decreases context@.len() - i,
        {
            let (number, text) = &context[i];
            let ghost before = out@;
            out.push(if *number == note.line {
                '>'
            } else {
                ' '
            });
            out.push(' ');
            let digits = decimal_of(*number as u64);
            let mut pad: usize = 0;
            let need: usize = if digits.len() < width {
                width - digits.len()
            } else {
                0
            };
            while pad < need
                invariant
                    pad <= need,
                    out@ == before + seq![if *number == note.line {
                        '>'
                    } else {
                        ' '
                    }, ' '] + Seq::new(pad as nat, |k: int| ' '),
                decreases need - pad,
            {
                out.push(' ');
                pad += 1;
                assert(Seq::new(pad as nat, |k: int| ' ') =~= Seq::new((pad - 1) as nat, |k: int| ' ').push(' '));
            }
            push_all(&mut out, digits.as_slice());
            push_str(&mut out, " | ");
            push_str(&mut out, text.as_str());
            out.push('\n');
            proof {
                assert(context@.take(i as int + 1).drop_last() =~= context@.take(i as int));
                assert(context@.take(i as int + 1).last() == context@[i as int]);
                assert(out@ =~= before + context_line(*number, text@, note.line, width as nat));
            }
            i += 1;
        }
        assert(context@.take(context@.len() as int) =~= context@);
    }
    push_str(&mut out, "\nResolve it with the vigia MCP server: resolve(id: ");
    push_str(&mut out, quoted);
    push_str(&mut out, ", note: \"<one line saying what you did>\").\n");
    assert(out@ =~= content_text(note.path@, note.line, note.body@, context@, quoted@));
    string_of(out.as_slice())
}

/// What the agent reads: the anchor, the reader's words, the lines around it,
/// and the id to resolve it by.
pub fn content(note: &Note, context: &[(u32, String)]) -> (r: String)
    ensures
        r@ == content_text(note.path@, note.line, note.body@, context@, debug_spelling(note.id@)),
{
    let quoted = debug_of(note.id.as_str());
    content_with(note, context, quoted.as_str())
}

} // verus!
