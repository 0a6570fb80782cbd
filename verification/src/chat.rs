use vstd::prelude::*;

verus! {

/// Whether `c` has the Unicode `White_Space` property: tab through carriage
/// return, space, next line, no-break space, ogham space mark, the spaces from
/// en quad to hair space, line and paragraph separator, narrow no-break space,
/// medium mathematical space and ideographic space.
pub open spec fn is_white_space(c: char) -> bool {
    let u = c as u32;
    ||| 0x09 <= u <= 0x0D
    ||| u == 0x20
    ||| u == 0x85
    ||| u == 0xA0
    ||| u == 0x1680
    ||| 0x2000 <= u <= 0x200A
    ||| u == 0x2028
    ||| u == 0x2029
    ||| u == 0x202F
    ||| u == 0x205F
    ||| u == 0x3000
}

/// Whether `c` belongs to the Unicode general category `Cc` (control):
/// U+0000 to U+001F and U+007F to U+009F.
pub open spec fn is_control_char(c: char) -> bool {
    let u = c as u32;
    u <= 0x1F || (0x7F <= u <= 0x9F)
}

/// Calls `char::is_whitespace`, which is documented to return true exactly
/// for the characters with the Unicode `White_Space` property, the code
/// points listed in `is_white_space`.
#[verifier::external_body]
fn char_is_whitespace(c: char) -> (r: bool)
    ensures
        r == is_white_space(c),
{
    c.is_whitespace()
}

/// Calls `char::is_control`, which is documented to return true exactly for
/// the characters of the general category `Cc`, the code points listed in
/// `is_control_char`.
#[verifier::external_body]
fn char_is_control(c: char) -> (r: bool)
    ensures
        r == is_control_char(c),
{
    c.is_control()
}

/// A key pressed while the chat line is open.
#[derive(Debug)]
pub enum ChatKey {
    Enter,
    Escape,
    ArrowLeft,
    ArrowRight,
    Backspace,
    Delete,
    Space,
    /// The characters that a key produces.
    Character(Vec<char>),
    /// Any other key.
    Other,
}

/// What the chat does after a key.
#[derive(Debug, PartialEq, Eq)]
pub enum ChatAction {
    /// Nothing beyond editing the line.
    Nothing,
    /// Send this message.
    Send(Vec<char>),
    /// Close the chat and give the controls back to the player.
    Close,
}

/// The line being typed and the cursor's position in it.
#[derive(Debug)]
pub struct ChatTypingContent {
    pub chars: Vec<char>,
    pub cursor: usize,
}

/// All characters of `s` are white space (so the trimmed line is empty).
pub open spec fn all_white_space(s: Seq<char>) -> bool {
    forall|i: int| 0 <= i < s.len() ==> is_white_space(#[trigger] s[i])
}

/// The characters of `s` that are not control characters, in order.
pub open spec fn printable(s: Seq<char>) -> Seq<char>
    decreases s.len(),
{
    if s.len() == 0 {
        Seq::empty()
    } else {
        let r = printable(s.drop_last());
        if is_control_char(s.last()) {
            r
        } else {
            r.push(s.last())
        }
    }
}

/// The line, the cursor and the action after `key`, the cursor first being
/// pulled back to the end of the line if it lies beyond it.
pub open spec fn key_result(chars: Seq<char>, cursor: int, key: ChatKey) -> (Seq<char>, int, Option<Seq<char>>, bool) {
    let c = if cursor <= chars.len() {
        cursor
    } else {
        chars.len() as int
    };
    match key {
        ChatKey::Enter => (
            Seq::empty(),
            0,
            if all_white_space(chars) {
                None
            } else {
                Some(chars)
            },
            false,
        ),
        ChatKey::Escape => (Seq::empty(), 0, None, true),
        ChatKey::ArrowLeft => (chars, if c > 0 {
            c - 1
        } else {
            c
        }, None, false),
        ChatKey::ArrowRight => (chars, if c < chars.len() {
            c + 1
        } else {
            c
        }, None, false),
        ChatKey::Backspace => if c > 0 {
            (chars.remove(c - 1), c - 1, None, false)
        } else {
            (chars, c, None, false)
        },
        ChatKey::Delete => if c < chars.len() {
            (chars.remove(c), c, None, false)
        } else {
            (chars, c, None, false)
        },
        ChatKey::Space => (chars.insert(c, ' '), c + 1, None, false),
        ChatKey::Character(input) => {
            let p = printable(input@);
            (chars.take(c) + p + chars.skip(c), c + p.len(), None, false)
        },
        ChatKey::Other => (chars, c, None, false),
    }
}

/// How many characters of the line are shown at once.
pub const CHAT_VISIBLE_LEN: usize = 45;

/// First shown character: the window scrolls once the cursor reaches its end,
/// keeping the cursor five characters from the window's right edge.
pub open spec fn view_start(cursor: int) -> int {
    if cursor >= 45 {
        cursor - 45 + 5
    } else {
        0
    }
}

/// One past the last shown character.
pub open spec fn view_end(len: int, cursor: int) -> int {
    if view_start(cursor) + 45 <= len {
        view_start(cursor) + 45
    } else {
        len
    }
}

/// The shown characters from `start` up to `end`, with a bar before the
/// character at the cursor.
pub open spec fn shown_chars(s: Seq<char>, cursor: int, start: int, end: int) -> Seq<char>
    decreases end - start,
{
    if end <= start {
        Seq::empty()
    } else {
        shown_chars(s, cursor, start, end - 1) + (if end - 1 == cursor {
            seq!['|']
        } else {
            Seq::empty()
        }) + seq![s[end - 1]]
    }
}

/// The text of the chat input: a prompt, an ellipsis when the line runs off
/// to the left, the shown characters with the cursor's bar, a bar after them
/// when the cursor sits at their end, and an ellipsis when the line runs off
/// to the right.
pub open spec fn display_text(s: Seq<char>, cursor: int) -> Seq<char> {
    let start = view_start(cursor);
    let end = view_end(s.len() as int, cursor);
    seq!['>', ' '] + (if start > 0 {
        seq!['.', '.', '.']
    } else {
        Seq::empty()
    }) + shown_chars(s, cursor, start, end) + (if cursor == end {
        seq!['|']
    } else {
        Seq::empty()
    }) + (if end < s.len() {
        seq!['.', '.', '.']
    } else {
        Seq::empty()
    })
}

proof fn lemma_printable_len(s: Seq<char>)
    ensures
        printable(s).len() <= s.len(),
    decreases s.len(),
{
    if s.len() > 0 {
        lemma_printable_len(s.drop_last());
    }
}

/// Whatever key is pressed, the cursor ends up within the line (at most just
/// past its last character).
pub proof fn lemma_cursor_within_line(chars: Seq<char>, cursor: int, key: ChatKey)
    requires
        0 <= cursor,
    ensures
        0 <= key_result(chars, cursor, key).1 <= key_result(chars, cursor, key).0.len(),
{
    if let ChatKey::Character(input) = key {
        lemma_printable_len(input@);
    }
}

/// Sending or closing always leaves an empty line.
pub proof fn lemma_enter_escape_clear(chars: Seq<char>, cursor: int)
    ensures
        key_result(chars, cursor, ChatKey::Enter).0 == Seq::<char>::empty(),
        key_result(chars, cursor, ChatKey::Enter).1 == 0,
        key_result(chars, cursor, ChatKey::Escape).0 == Seq::<char>::empty(),
        key_result(chars, cursor, ChatKey::Escape).1 == 0,
{
}

/// Typing a printable character and then pressing backspace gives the line
/// and the cursor back.
pub proof fn lemma_type_then_backspace(chars: Seq<char>, cursor: int, input: Vec<char>)
    requires
        0 <= cursor <= chars.len(),
        input@.len() == 1,
        !is_control_char(input@[0]),
    ensures
        ({
            let (c1, k1, _, _) = key_result(chars, cursor, ChatKey::Character(input));
            let (c2, k2, _, _) = key_result(c1, k1, ChatKey::Backspace);
            c2 == chars && k2 == cursor
        }),
{
    let s = input@;
    assert(s.drop_last() =~= Seq::<char>::empty());
    assert(printable(s.drop_last()) == Seq::<char>::empty());
    assert(s.last() == s[0]);
    assert(printable(s) == printable(s.drop_last()).push(s.last()));
    assert(printable(s) =~= seq![s[0]]);
    let c1 = chars.take(cursor) + seq![s[0]] + chars.skip(cursor);
    assert(c1.remove(cursor) =~= chars);
}

impl ChatTypingContent {
    /// An empty line.
    pub fn new() -> (c: ChatTypingContent)
        ensures
            c.chars@ == Seq::<char>::empty(),
            c.cursor == 0,
    {
        ChatTypingContent { chars: Vec::new(), cursor: 0 }
    }

    /// Edits the line for `key` and says what the chat must do.
    pub fn apply_key(&mut self, key: ChatKey) -> (action: ChatAction)
        ensures
            ({
                let (chars, cursor, sent, close) = key_result(old(self).chars@, old(self).cursor as int, key);
                &&& final(self).chars@ == chars
                &&& final(self).cursor == cursor
                &&& match action {
                    ChatAction::Nothing => sent is None && !close,
                    ChatAction::Send(m) => sent == Some(m@) && !close,
                    ChatAction::Close => sent is None && close,
                }
            }),
    {
        if self.cursor > self.chars.len() {
            self.cursor = self.chars.len();
        }
        match key {
            ChatKey::Enter => {
                let mut message: Vec<char> = Vec::new();
                std::mem::swap(&mut message, &mut self.chars);
                self.cursor = 0;
                if is_blank(&message) {
                    ChatAction::Nothing
                } else {
                    ChatAction::Send(message)
                }
            },
            ChatKey::Escape => {
                self.chars.clear();
                self.cursor = 0;
                ChatAction::Close
            },
            ChatKey::ArrowLeft => {
                if self.cursor > 0 {
                    self.cursor = self.cursor - 1;
                }
                ChatAction::Nothing
            },
            ChatKey::ArrowRight => {
                if self.cursor < self.chars.len() {
                    self.cursor = self.cursor + 1;
                }
                ChatAction::Nothing
            },
            ChatKey::Backspace => {
                if self.cursor > 0 {
                    self.cursor = self.cursor - 1;
                    if self.cursor < self.chars.len() {
                        let cursor = self.cursor;
                        self.chars.remove(cursor);
                    }
                }
                ChatAction::Nothing
            },
            ChatKey::Delete => {
                if self.cursor < self.chars.len() {
                    let cursor = self.cursor;
                    self.chars.remove(cursor);
                }
                ChatAction::Nothing
            },
            ChatKey::Space => {
                let cursor = self.cursor;
                self.chars.insert(cursor, ' ');
                proof {
                    assert(self.chars@.len() == self.chars.len());
                }
                self.cursor = self.cursor + 1;
                ChatAction::Nothing
            },
            ChatKey::Character(input) => {
                self.insert_printable(&input);
                ChatAction::Nothing
            },
            ChatKey::Other => ChatAction::Nothing,
        }
    }

    /// Inserts the characters of `input` that are not control characters at
    /// the cursor, moving the cursor past each.
    fn insert_printable(&mut self, input: &Vec<char>)
        requires
            old(self).cursor <= old(self).chars@.len(),
        ensures
            final(self).chars@ == old(self).chars@.take(old(self).cursor as int) + printable(input@)
                + old(self).chars@.skip(old(self).cursor as int),
            final(self).cursor == old(self).cursor + printable(input@).len(),
    {
        let ghost c0 = self.cursor as int;
        let ghost s0 = self.chars@;
        let mut i: usize = 0;
        while i < input.len()
            invariant
                i <= input@.len(),
                0 <= c0 <= s0.len(),
                self.chars@ == s0.take(c0) + printable(input@.take(i as int)) + s0.skip(c0),
                self.cursor == c0 + printable(input@.take(i as int)).len(),
            decreases input@.len() - i,
        {
            let c = input[i];
            assert(input@.take(i + 1).drop_last() =~= input@.take(i as int));
            assert(input@.take(i + 1).last() == c);
            if !char_is_control(c) {
                let cursor = self.cursor;
                self.chars.insert(cursor, c);
                proof {
                    assert(self.chars@.len() == self.chars.len());
                }
                self.cursor = self.cursor + 1;
                assert(self.chars@ =~= s0.take(c0) + printable(input@.take(i + 1)) + s0.skip(c0));
            }
            i = i + 1;
        }
        assert(input@.take(input@.len() as int) =~= input@);
    }

    /// The text shown in the chat input.
    pub fn display(&self) -> (text: Vec<char>)
        requires
            self.cursor + 5 <= usize::MAX,
        ensures
            text@ == display_text(self.chars@, self.cursor as int),
    {
        let max_len: usize = CHAT_VISIBLE_LEN;
        let len = self.chars.len();
        let mut display_start: usize = 0;
        if self.cursor >= max_len {
            display_start = self.cursor - max_len + 5;
        }
        let display_end = if display_start + max_len <= len {
            display_start + max_len
        } else {
            len
        };
        let mut text: Vec<char> = Vec::new();
        text.push('>');
        text.push(' ');
        if display_start > 0 {
            text.push('.');
            text.push('.');
            text.push('.');
        }
        let ghost prefix = text@;
        let mut i = display_start;
        while i < display_end
            invariant
                display_start <= i,
                display_start <= display_end ==> i <= display_end,
                display_end < display_start ==> i == display_start,
                display_end <= len,
                len == self.chars@.len(),
                text@ == prefix + shown_chars(self.chars@, self.cursor as int, display_start as int, i as int),
            decreases display_end - i,
        {
            let ghost before = text@;
            if i == self.cursor {
                text.push('|');
            }
            text.push(self.chars[i]);
            proof {
                let step = shown_chars(
                    self.chars@,
                    self.cursor as int,
                    display_start as int,
                    i + 1,
                );
                assert(step == shown_chars(
                    self.chars@,
                    self.cursor as int,
                    display_start as int,
                    i as int,
                ) + (if i == self.cursor {
                    seq!['|']
                } else {
                    Seq::empty()
                }) + seq![self.chars@[i as int]]);
                assert(text@ =~= prefix + step);
            }
            i = i + 1;
        }
        assert(text@ == prefix + shown_chars(
            self.chars@,
            self.cursor as int,
            display_start as int,
            display_end as int,
        ));
        assert(display_start == view_start(self.cursor as int));
        assert(display_end == view_end(len as int, self.cursor as int));
        if self.cursor == display_end {
            text.push('|');
        }
        if display_end < len {
            text.push('.');
            text.push('.');
            text.push('.');
        }
        assert(text@ =~= display_text(self.chars@, self.cursor as int));
        text
    }
}

/// Whether the message is empty once white space is trimmed from both ends.
fn is_blank(message: &Vec<char>) -> (r: bool)
    ensures
        r == all_white_space(message@),
{
    let mut i: usize = 0;
    while i < message.len()
        invariant
            i <= message@.len(),
            forall|j: int| 0 <= j < i ==> is_white_space(#[trigger] message@[j]),
        decreases message@.len() - i,
    {
        if !char_is_whitespace(message[i]) {
            return false;
        }
        i = i + 1;
    }
    true
}

} // verus!
