//! The text that the input line of the terminal client sends.

use vstd::prelude::*;
use vstd::string::*;

verus! {

/// The characters of `lines`, one line after the other with nothing between them.
pub open spec fn joined(lines: Seq<String>) -> Seq<char>
    decreases lines.len(),
{
    if lines.len() == 0 {
        Seq::empty()
    } else {
        joined(lines.drop_last()) + lines.last()@
    }
}

/// The message that the lines of the input hold: the lines joined, or `None`
/// where they hold no character at all.
pub fn message_text(lines: &[String]) -> (r: Option<String>)
    ensures
        match r {
            Some(text) => text@ == joined(lines@) && text@.len() > 0,
            None => joined(lines@).len() == 0,
        },
{
    let mut text = String::new();
    let mut i: usize = 0;
    assert(lines@.take(0) =~= Seq::<String>::empty());
    while i < lines.len()
        invariant
            i <= lines@.len(),
            text@ == joined(lines@.take(i as int)),
        decreases lines@.len() - i,
    {
        assert(lines@.take(i + 1).drop_last() =~= lines@.take(i as int));
        text.append(lines[i].as_str());
        i += 1;
    }
    assert(lines@.take(i as int) =~= lines@);
    if text.as_str().is_empty() {
        None
    } else {
        Some(text)
    }
}

} // verus!
