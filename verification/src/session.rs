//! The session of the terminal client: who the user is, which colour each
//! author is shown in, and the messages received so far.

use crate::message::{message_views, Message, MessageView, Timestamp};
use vstd::prelude::*;
use vstd::string::*;

verus! {

/// A colour in which an author's messages are shown.
#[derive(Clone, Copy, Debug, PartialEq, Eq, Structural)]
pub enum Color {
    Red,
    Green,
    Yellow,
    Blue,
    Magenta,
    Gray,
    DarkGray,
    LightRed,
    LightGreen,
    LightYellow,
    LightBlue,
    LightMagenta,
    LightCyan,
    White,
    /// The colour of the user's own messages. It is not in the palette.
    Cyan,
}

/// How many colours the palette holds.
pub const PALETTE_LEN: usize = 14;

/// The colour at place `pick` of the palette from which other authors get theirs.
pub open spec fn palette_spec(pick: int) -> Color {
    if pick == 0 {
        Color::Red
    } else if pick == 1 {
        Color::Green
    } else if pick == 2 {
        Color::Yellow
    } else if pick == 3 {
        Color::Blue
    } else if pick == 4 {
        Color::Magenta
    } else if pick == 5 {
        Color::Gray
    } else if pick == 6 {
        Color::DarkGray
    } else if pick == 7 {
        Color::LightRed
    } else if pick == 8 {
        Color::LightGreen
    } else if pick == 9 {
        Color::LightYellow
    } else if pick == 10 {
        Color::LightBlue
    } else if pick == 11 {
        Color::LightMagenta
    } else if pick == 12 {
        Color::LightCyan
    } else {
        Color::White
    }
}

/// The colour at place `pick` of the palette.
pub fn palette(pick: usize) -> (r: Color)
    requires
        pick < PALETTE_LEN,
    ensures
        r == palette_spec(pick as int),
{
    if pick == 0 {
        Color::Red
    } else if pick == 1 {
        Color::Green
    } else if pick == 2 {
        Color::Yellow
    } else if pick == 3 {
        Color::Blue
    } else if pick == 4 {
        Color::Magenta
    } else if pick == 5 {
        Color::Gray
    } else if pick == 6 {
        Color::DarkGray
    } else if pick == 7 {
        Color::LightRed
    } else if pick == 8 {
        Color::LightGreen
    } else if pick == 9 {
        Color::LightYellow
    } else if pick == 10 {
        Color::LightBlue
    } else if pick == 11 {
        Color::LightMagenta
    } else if pick == 12 {
        Color::LightCyan
    } else {
        Color::White
    }
}

/// Calls `rand::random_range` on the range from 0 up to, and without,
/// `bound`. Trusted: the number it gives lies in that range. Which number it
/// is depends on chance, so nothing more is said of it.
#[verifier::external_body]
fn random_below(bound: usize) -> (r: usize)
    requires
        bound > 0,
    ensures
        r < bound,
{
    rand::random_range(0..bound)
}

/// The colour that `colors` gives `name`: that of the first entry under that name.
pub open spec fn color_of(colors: Seq<(Seq<char>, Color)>, name: Seq<char>) -> Option<Color>
    decreases colors.len(),
{
    if colors.len() == 0 {
        None
    } else if colors[0].0 == name {
        Some(colors[0].1)
    } else {
        color_of(colors.skip(1), name)
    }
}

/// `colors` with `color` for `name`, where `name` has none yet; unchanged where it has.
pub open spec fn with_color(colors: Seq<(Seq<char>, Color)>, name: Seq<char>, color: Color) -> Seq<
    (Seq<char>, Color),
> {
    if color_of(colors, name) is Some {
        colors
    } else {
        colors.push((name, color))
    }
}

/// A colour given to a new name is the colour found for it afterwards, and
/// every other name keeps what it had.
pub proof fn lemma_with_color(
    colors: Seq<(Seq<char>, Color)>,
    name: Seq<char>,
    color: Color,
    other: Seq<char>,
)
    ensures
        color_of(with_color(colors, name, color), name) == Some(
            match color_of(colors, name) {
                Some(had) => had,
                None => color,
            },
        ),
        other != name ==> color_of(with_color(colors, name, color), other) == color_of(
            colors,
            other,
        ),
    decreases colors.len(),
{
    if colors.len() > 0 {
        lemma_with_color(colors.skip(1), name, color, other);
        assert(colors.push((name, color)).skip(1) =~= colors.skip(1).push((name, color)));
    } else {
        assert(colors.push((name, color)).skip(1) =~= colors);
    }
}

/// Where one of the last messages goes on the screen.
#[derive(Clone, Copy, Debug, PartialEq, Eq, Structural)]
pub struct Placement {
    /// The row, counted from 0 at the oldest message shown.
    pub slot: usize,
    /// Whether the user wrote the message: such a message goes to the right
    /// column, any other to the left.
    pub own: bool,
    /// The colour of its author, where the author has one.
    pub color: Option<Color>,
}

/// What a `Session` holds, as mathematical values.
pub struct SessionView {
    /// The name of the user.
    pub user: Seq<char>,
    /// The colour of each author known, in the order in which they got it.
    pub colors: Seq<(Seq<char>, Color)>,
    /// The messages received, oldest first.
    pub messages: Seq<MessageView>,
}

/// The state of the client between two frames drawn.
pub struct Session {
    user_colors: Vec<(String, Color)>,
    user_name: String,
    messages: Vec<Message>,
}

/// The names and colours of `colors`, in order.
pub open spec fn color_views(colors: Seq<(String, Color)>) -> Seq<(Seq<char>, Color)> {
    colors.map_values(|entry: (String, Color)| (entry.0@, entry.1))
}

/// How many of `len` messages are shown where at most `n` are.
pub open spec fn shown(len: nat, n: nat) -> nat {
    if n < len {
        n
    } else {
        len
    }
}

impl View for Session {
    type V = SessionView;

    closed spec fn view(&self) -> SessionView {
        SessionView {
            user: self.user_name@,
            colors: color_views(self.user_colors@),
            messages: message_views(self.messages@),
        }
    }
}

impl Session {
    /// A session for the user `user_name`, whose own messages are shown in
    /// cyan, with no message received yet.
    pub fn new(user_name: String) -> (r: Self)
        ensures
            r@.user == user_name@,
            r@.colors == seq![(user_name@, Color::Cyan)],
            r@.messages == Seq::<MessageView>::empty(),
    {
        let mut user_colors: Vec<(String, Color)> = Vec::new();
        user_colors.push((user_name.clone(), Color::Cyan));
        let r = Self { user_colors, user_name, messages: Vec::new() };
        assert(r@.colors =~= seq![(user_name@, Color::Cyan)]);
        assert(r@.messages =~= Seq::<MessageView>::empty());
        r
    }

    /// The name of the user.
    pub fn user(&self) -> (r: &String)
        ensures
            r@ == self@.user,
    {
        &self.user_name
    }

    fn find_color(&self, user: &String) -> (r: Option<Color>)
        ensures
            r == color_of(self@.colors, user@),
    {
        let mut i: usize = 0;
        assert(self@.colors.skip(0) =~= self@.colors);
        while i < self.user_colors.len()
            invariant
                i <= self.user_colors@.len(),
                color_of(self@.colors, user@) == color_of(self@.colors.skip(i as int), user@),
            decreases self.user_colors@.len() - i,
        {
            let ghost rest = self@.colors.skip(i as int);
            assert(rest[0] == self@.colors[i as int]);
            assert(rest.skip(1) =~= self@.colors.skip(i + 1));
            if self.user_colors[i].0 == *user {
                return Some(self.user_colors[i].1);
            }
            i += 1;
        }
        None
    }

    /// Whether `user` has a colour.
    pub fn knows(&self, user: &String) -> (r: bool)
        ensures
            r == (color_of(self@.colors, user@) is Some),
    {
        self.find_color(user).is_some()
    }

    /// The colour in which the messages of `user` are shown.
    pub fn get_user_color(&self, user: &String) -> (r: Color)
        requires
            color_of(self@.colors, user@) is Some,
        ensures
            Some(r) == color_of(self@.colors, user@),
    {
        match self.find_color(user) {
            Some(color) => color,
            None => Color::White,
        }
    }

    /// Gives `user_name` the colour at place `pick` of the palette, unless it
    /// has a colour already.
    pub fn assign_color_with(&mut self, user_name: String, pick: usize)
        requires
            pick < PALETTE_LEN,
        ensures
            final(self)@ == (SessionView {
                colors: with_color(old(self)@.colors, user_name@, palette_spec(pick as int)),
                ..old(self)@
            }),
    {
        if !self.knows(&user_name) {
            self.user_colors.push((user_name, palette(pick)));
            assert(self@.colors =~= old(self)@.colors.push(
                (user_name@, palette_spec(pick as int)),
            ));
        }
    }

    /// Gives `user_name` a colour of the palette, picked at random, unless it
    /// has a colour already.
    pub fn assign_user_color(&mut self, user_name: String)
        ensures
            exists|pick: int|
                0 <= pick < PALETTE_LEN && final(self)@ == (SessionView {
                    colors: with_color(old(self)@.colors, user_name@, #[trigger] palette_spec(pick)),
                    ..old(self)@
                }),
    {
        let pick = random_below(PALETTE_LEN);
        self.assign_color_with(user_name, pick);
        assert(self@.colors == with_color(old(self)@.colors, user_name@, palette_spec(pick as int)));
    }

    /// Appends a message received.
    pub fn new_message(&mut self, msg: Message)
        ensures
            final(self)@ == (SessionView {
                messages: old(self)@.messages.push(msg@),
                ..old(self)@
            }),
    {
        self.messages.push(msg);
        assert(self@.messages =~= old(self)@.messages.push(msg@));
    }

    /// Takes in a message received: its author gets a colour of the palette,
    /// picked at random, unless it has one, and the message is appended.
    pub fn receive(&mut self, msg: Message)
        ensures
            exists|pick: int|
                0 <= pick < PALETTE_LEN && final(self)@ == (SessionView {
                    colors: with_color(old(self)@.colors, msg@.author, #[trigger] palette_spec(pick)),
                    messages: old(self)@.messages.push(msg@),
                    ..old(self)@
                }),
    {
        self.assign_user_color(msg.author.clone());
        let ghost pick = choose|pick: int|
            0 <= pick < PALETTE_LEN && self@ == (SessionView {
                colors: with_color(old(self)@.colors, msg@.author, #[trigger] palette_spec(pick)),
                ..old(self)@
            });
        self.new_message(msg);
        assert(self@ == (SessionView {
            colors: with_color(old(self)@.colors, msg@.author, palette_spec(pick)),
            messages: old(self)@.messages.push(msg@),
            ..old(self)@
        }));
    }

    /// The message that the user sends: `body`, written at `date` by the user.
    pub fn compose(&self, body: String, date: Timestamp) -> (r: Message)
        ensures
            r@ == (MessageView { body: body@, date, author: self@.user }),
    {
        Message::new(body, date, self.user_name.clone())
    }

    /// The last `n` messages, oldest first, each with its row counted from 0;
    /// all of them where there are fewer than `n`.
    pub fn last_n_msgs(&self, n: usize) -> (r: Vec<(usize, &Message)>)
        ensures
            r@.len() == shown(self@.messages.len(), n as nat),
            forall|i: int|
                0 <= i < r@.len() ==> (#[trigger] r@[i]).0 == i && r@[i].1@
                    == self@.messages[self@.messages.len() - r@.len() + i],
    {
        let len = self.messages.len();
        let count = if n < len {
            n
        } else {
            len
        };
        let first = len - count;
        let mut out: Vec<(usize, &Message)> = Vec::new();
        let mut i: usize = 0;
        while i < count
            invariant
                i <= count,
                first + count == len,
                len == self.messages@.len(),
                out@.len() == i,
                forall|k: int|
                    0 <= k < i ==> (#[trigger] out@[k]).0 == k && *out@[k].1
                        == self.messages@[first + k],
            decreases count - i,
        {
            out.push((i, &self.messages[first + i]));
            i += 1;
        }
        out
    }

    /// Where each of the last `n` messages goes, oldest first.
    pub fn placements(&self, n: usize) -> (r: Vec<Placement>)
        ensures
            r@.len() == shown(self@.messages.len(), n as nat),
            forall|i: int|
                0 <= i < r@.len() ==> {
                    let msg = self@.messages[self@.messages.len() - r@.len() + i];
                    #[trigger] r@[i] == (Placement {
                        slot: i as usize,
                        own: msg.author == self@.user,
                        color: color_of(self@.colors, msg.author),
                    })
                },
    {
        let last = self.last_n_msgs(n);
        let mut out: Vec<Placement> = Vec::new();
        let mut i: usize = 0;
        while i < last.len()
            invariant
                i <= last@.len(),
                last@.len() == shown(self@.messages.len(), n as nat),
                forall|k: int|
                    0 <= k < last@.len() ==> (#[trigger] last@[k]).0 == k && last@[k].1@
                        == self@.messages[self@.messages.len() - last@.len() + k],
                out@.len() == i,
                forall|k: int|
                    0 <= k < i ==> {
                        let msg = self@.messages[self@.messages.len() - last@.len() + k];
                        #[trigger] out@[k] == (Placement {
                            slot: k as usize,
                            own: msg.author == self@.user,
                            color: color_of(self@.colors, msg.author),
                        })
                    },
            decreases last@.len() - i,
        {
            let (slot, msg) = last[i];
            let own = msg.author == self.user_name;
            let color = self.find_color(&msg.author);
            out.push(Placement { slot, own, color });
            i += 1;
        }
        out
    }
}

} // verus!
