//! The message buffer: accumulates enciphered symbols, breaks the live
//! display into fixed-width lines, and formats committed output into the
//! classic telegram style — blocks of 5 symbols separated by a space, with a
//! line break replacing the space after every 8th block (every 40th symbol).

use vstd::prelude::*;

use crate::is_symbol;

verus! {

/// `s` with every embedded line break removed.
pub open spec fn strip_breaks(s: Seq<char>) -> Seq<char>
    decreases s.len(),
{
    if s.len() == 0 {
        Seq::empty()
    } else {
        strip_breaks(s.drop_last()) + if s.last() == '\n' {
            Seq::<char>::empty()
        } else {
            seq![s.last()]
        }
    }
}

/// The telegram grouping of `s` from position `i` on: each symbol, then a
/// line break after every 40th symbol, else a space after every 5th.
pub open spec fn format_chunks(s: Seq<char>, i: int) -> Seq<char>
    decreases s.len() - i when 0 <= i <= s.len()
{
    if i >= s.len() {
        Seq::empty()
    } else {
        seq![s[i]] + (if (i + 1) % 40 == 0 {
            seq!['\n']
        } else if (i + 1) % 5 == 0 {
            seq![' ']
        } else {
            Seq::<char>::empty()
        }) + format_chunks(s, i + 1)
    }
}

/// What formatting a committed message produces: strip embedded breaks, then
/// re-chunk into the telegram grouping.
pub open spec fn spec_format(content: Seq<char>) -> Seq<char> {
    format_chunks(strip_breaks(content), 0)
}

/// The buffer content after one symbol is recorded: a display line break
/// opens every 54 characters (the very first symbol opens the first line),
/// then the symbol itself follows.
pub open spec fn content_after_add(content: Seq<char>, c: char) -> Seq<char> {
    (if content.len() % 54 == 0 {
        content.push('\n')
    } else {
        content
    }).push(c)
}

/// Relies on String::push: appends exactly the one character.
#[verifier::external_body]
fn push_char(s: &mut String, c: char)
    ensures
        final(s)@ == old(s)@.push(c),
{
    s.push(c);
}

/// The ciphertext produced so far, plus its formatted copy made on commit.
pub struct Message {
    content: String,
    formatted: String,
}

impl Message {
    /// The symbols recorded so far, line breaks for the display included.
    pub closed spec fn spec_content(self) -> Seq<char> {
        self.content@
    }

    /// The formatted copy made by the last `format` call.
    pub closed spec fn spec_formatted(self) -> Seq<char> {
        self.formatted@
    }

    /// An empty message buffer.
    pub fn new() -> (m: Message)
        ensures
            m.spec_content() == Seq::<char>::empty(),
            m.spec_formatted() == Seq::<char>::empty(),
    {
        Message { content: String::new(), formatted: String::new() }
    }

    /// Record one enciphered symbol, opening a new display line every 54
    /// characters (the very first symbol opens the first line).
    pub fn add(&mut self, c: char)
        requires
            is_symbol(c),
        ensures
            final(self).spec_content() == content_after_add(old(self).spec_content(), c),
            final(self).spec_formatted() == old(self).spec_formatted(),
    {
        if self.content.as_str().unicode_len() % 54 == 0 {
            push_char(&mut self.content, '\n');
        }
        push_char(&mut self.content, c);
    }

    /// Discard the recorded content; the formatted copy is left alone.
    pub fn clear(&mut self)
        ensures
            final(self).spec_content() == Seq::<char>::empty(),
            final(self).spec_formatted() == old(self).spec_formatted(),
    {
        self.content = String::new();
    }

    /// The recorded content.
    pub fn read(&self) -> (r: &str)
        ensures
            r@ == self.spec_content(),
    {
        self.content.as_str()
    }

    /// The formatted copy made by the last `format` call.
    pub fn read_formatted(&self) -> (r: &str)
        ensures
            r@ == self.spec_formatted(),
    {
        self.formatted.as_str()
    }

    /// Format the message into the telegram grouping, keeping the content.
    pub fn format(&mut self)
        ensures
            final(self).spec_content() == old(self).spec_content(),
            final(self).spec_formatted() == spec_format(old(self).spec_content()),
    {
        // Strip the embedded display line breaks.
        let n: usize = self.content.as_str().unicode_len();
        let mut stripped: Vec<char> = Vec::new();
        let mut i: usize = 0;
        while i < n
            invariant
                n == self.spec_content().len(),
                i <= n,
                stripped@ =~= strip_breaks(self.spec_content().subrange(0, i as int)),
        decreases n - i,
        {
            let c: char = self.content.as_str().get_char(i);
            proof {
                assert(self.spec_content().subrange(0, i + 1).drop_last()
                    =~= self.spec_content().subrange(0, i as int));
            }
            if c != '\n' {
                stripped.push(c);
            }
            assert(stripped@ =~= strip_breaks(self.spec_content().subrange(0, i + 1)));
            i = i + 1;
        }
        assert(self.spec_content().subrange(0, n as int) =~= self.spec_content());

        // Re-chunk into blocks of 5, a line break after every 8th block.
        let ghost s = stripped@;
        let mut formatted: String = String::new();
        let mut j: usize = 0;
        while j < stripped.len()
            invariant
                s == stripped@,
                j <= s.len(),
                format_chunks(s, 0) =~= formatted@ + format_chunks(s, j as int),
            decreases stripped.len() - j,
        {
            let ghost before = formatted@;
            push_char(&mut formatted, stripped[j]);
            if (j + 1) % 40 == 0 {
                push_char(&mut formatted, '\n');
                assert(before + format_chunks(s, j as int)
                    =~= formatted@ + format_chunks(s, j + 1));
            } else if (j + 1) % 5 == 0 {
                push_char(&mut formatted, ' ');
                assert(before + format_chunks(s, j as int)
                    =~= formatted@ + format_chunks(s, j + 1));
            } else {
                assert(before + format_chunks(s, j as int)
                    =~= formatted@ + format_chunks(s, j + 1));
            }
            j = j + 1;
        }
        assert(formatted@ =~= format_chunks(s, 0));
        self.formatted = formatted;
    }
}

} // verus!
