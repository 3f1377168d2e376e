//! What the widgets of the terminal client show, apart from how it is drawn.

use crate::mode::Mode;
use vstd::prelude::*;
use vstd::string::*;

verus! {

/// How many dots the connecting notice grows before it starts over.
pub const MAX_DOTS: usize = 3;

/// The text of the connecting notice with `dots` dots behind it.
pub open spec fn connecting_text(dots: nat) -> Seq<char> {
    "Connecting to server"@ + Seq::new(dots, |i: int| '.')
}

/// The notice shown while the client connects: a text that grows a dot with
/// each frame drawn, up to three, and then starts over.
pub struct Connecting {
    dot_state: usize,
    message: String,
}

impl Connecting {
    #[verifier::type_invariant]
    spec fn inv(self) -> bool {
        self.dot_state <= MAX_DOTS && self.message@ == connecting_text(self.dot_state as nat)
    }

    /// How many dots the notice shows.
    pub closed spec fn dots(&self) -> nat {
        self.dot_state as nat
    }

    /// The text of the notice.
    pub closed spec fn text(&self) -> Seq<char> {
        self.message@
    }

    pub fn new() -> (r: Self)
        ensures
            r.dots() == 0,
            r.text() == connecting_text(0),
    {
        let message = String::from_str("Connecting to server");
        assert(message@ =~= connecting_text(0));
        Self { dot_state: 0, message }
    }

    /// The text to show.
    pub fn message(&self) -> (r: &str)
        ensures
            r@ == self.text(),
            self.text() == connecting_text(self.dots()),
            self.dots() <= MAX_DOTS,
    {
        proof {
            use_type_invariant(self);
        }
        self.message.as_str()
    }

    /// Moves the notice on by one frame: one dot more, or none again after three.
    pub fn advance(&mut self)
        ensures
            final(self).dots() == if old(self).dots() < MAX_DOTS {
                old(self).dots() + 1
            } else {
                0
            },
            final(self).text() == connecting_text(final(self).dots()),
    {
        proof {
            use_type_invariant(&*self);
        }
        let dots = if self.dot_state < MAX_DOTS {
            self.dot_state + 1
        } else {
            0
        };
        let mut message = String::from_str("Connecting to server");
        let mut i: usize = 0;
        assert(message@ =~= connecting_text(0));
        while i < dots
            invariant
                i <= dots,
                message@ == connecting_text(i as nat),
            decreases dots - i,
        {
            proof {
                reveal_strlit(".");
            }
            message.append(".");
            i += 1;
            assert(message@ =~= connecting_text(i as nat));
        }
        *self = Connecting { dot_state: dots, message };
    }
}

/// The one-line form of a message: the author and the time it was written,
/// in square brackets, then the text.
pub open spec fn message_line_spec(author: Seq<char>, date: Seq<char>, body: Seq<char>) -> Seq<
    char,
> {
    "["@ + author + " - "@ + date + "] "@ + body + " "@
}

/// Writes a message on one line, around a date that is already formatted.
pub fn message_line(author: &str, date: &str, body: &str) -> (r: String)
    ensures
        r@ == message_line_spec(author@, date@, body@),
{
    let mut line = String::from_str("[");
    line.append(author);
    line.append(" - ");
    line.append(date);
    line.append("] ");
    line.append(body);
    line.append(" ");
    line
}

/// One piece of the help line.
#[derive(Clone, Copy, Debug)]
pub struct Segment {
    /// The words of the piece.
    pub text: &'static str,
    /// Whether the piece names a key, and is shown set off from the rest.
    pub key: bool,
}

/// What a `Segment` holds, as mathematical values.
pub struct SegmentView {
    pub text: Seq<char>,
    pub key: bool,
}

impl View for Segment {
    type V = SegmentView;

    open spec fn view(&self) -> SegmentView {
        SegmentView { text: self.text@, key: self.key }
    }
}

/// The pieces of the help line in `mode`.
pub open spec fn help_line(mode: Mode) -> Seq<SegmentView> {
    match mode {
        Mode::NormalMode => seq![
            SegmentView { text: "Press "@, key: false },
            SegmentView { text: "q"@, key: true },
            SegmentView { text: " to exit, "@, key: false },
            SegmentView { text: "a"@, key: true },
            SegmentView { text: " to start editing message."@, key: false },
        ],
        Mode::InsertMode => seq![
            SegmentView { text: "Press "@, key: false },
            SegmentView { text: "ESC"@, key: true },
            SegmentView { text: " to stop editing, "@, key: false },
            SegmentView { text: "ENTER"@, key: true },
            SegmentView { text: " to send message"@, key: false },
        ],
    }
}

/// The line that tells which keys do what in the mode the client is in.
pub struct Help<'a> {
    mode: &'a Mode,
}

impl<'a> Help<'a> {
    /// The mode that the line is for.
    pub closed spec fn mode(&self) -> Mode {
        *self.mode
    }

    pub fn new(mode: &'a Mode) -> (r: Self)
        ensures
            r.mode() == *mode,
    {
        Self { mode }
    }

    /// The pieces of the line, from left to right.
    pub fn segments(&self) -> (r: Vec<Segment>)
        ensures
            r@.map_values(|s: Segment| s@) == help_line(self.mode()),
    {
        let mut line: Vec<Segment> = Vec::new();
        match *self.mode {
            Mode::NormalMode => {
                line.push(Segment { text: "Press ", key: false });
                line.push(Segment { text: "q", key: true });
                line.push(Segment { text: " to exit, ", key: false });
                line.push(Segment { text: "a", key: true });
                line.push(Segment { text: " to start editing message.", key: false });
            },
            Mode::InsertMode => {
                line.push(Segment { text: "Press ", key: false });
                line.push(Segment { text: "ESC", key: true });
                line.push(Segment { text: " to stop editing, ", key: false });
                line.push(Segment { text: "ENTER", key: true });
                line.push(Segment { text: " to send message", key: false });
            },
        }
        assert(line@.map_values(|s: Segment| s@) =~= help_line(self.mode()));
        line
    }
}

} // verus!
