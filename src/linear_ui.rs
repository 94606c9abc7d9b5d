use vstd::prelude::*;
use vstd::string::StringExecFns;
use vstd::string::StrSliceExecFns;

verus! {

/// Relies on String::push: appends one character.
#[verifier::external_body]
fn push_char_to(s: &mut String, c: char)
    ensures
        final(s)@ == old(s)@.push(c),
{
    s.push(c)
}

/// How many times `c` occurs in `s`.
pub open spec fn count_char(s: Seq<char>, c: char) -> nat
    decreases s.len(),
{
    if s.len() == 0 {
        0
    } else {
        count_char(s.drop_last(), c) + if s.last() == c { 1nat } else { 0nat }
    }
}

/// Text built up piece by piece before it is printed.
#[derive(Debug)]
pub struct Buffer {
    content: String,
}

impl View for Buffer {
    type V = Seq<char>;

    closed spec fn view(&self) -> Seq<char> {
        self.content@
    }
}

impl Buffer {
    pub fn new() -> (r: Self)
        ensures
            r@ == Seq::<char>::empty(),
    {
        proof {
            reveal_strlit("");
        }
        Buffer { content: String::from_str("") }
    }

    pub fn from_string(string: String) -> (r: Self)
        ensures
            r@ == string@,
    {
        Buffer { content: string }
    }

    pub fn push(&mut self, string: &str)
        ensures
            final(self)@ == old(self)@ + string@,
    {
        self.content.append(string);
    }

    /// Appends `string` and a carriage return with a line feed.
    pub fn pushln(&mut self, string: &str)
        ensures
            final(self)@ == old(self)@ + string@ + seq!['\r', '\n'],
    {
        self.content.append(string);
        self.content.append("\r\n");
        proof {
            reveal_strlit("\r\n");
            assert(self@ =~= old(self)@ + string@ + seq!['\r', '\n']);
        }
    }

    pub fn push_char(&mut self, char: char)
        ensures
            final(self)@ == old(self)@.push(char),
    {
        push_char_to(&mut self.content, char);
    }

    pub fn push_buffer(&mut self, buffer: Buffer)
        ensures
            final(self)@ == old(self)@ + buffer@,
    {
        self.content.append(buffer.content.as_str());
    }

    /// The number of line feeds, as a `u32`.
    pub fn line_count(&self) -> (r: u32)
        ensures
            r == count_char(self@, '\n') as u32,
    {
        let s = self.content.as_str();
        let n = s.unicode_len();
        let mut count: u64 = 0;
        let mut i: usize = 0;
        while i < n
            invariant
                n == s@.len(),
                s@ == self@,
                i <= n,
                count == count_char(s@.subrange(0, i as int), '\n'),
                count <= i,
            decreases n - i,
        {
            let c = s.get_char(i);
            proof {
                let next = s@.subrange(0, i + 1);
                assert(next.drop_last() =~= s@.subrange(0, i as int));
                assert(next.last() == c);
            }
            if c == '\n' {
                count += 1;
            }
            i += 1;
        }
        proof {
            assert(s@.subrange(0, n as int) =~= s@);
        }
        count as u32
    }

    /// The text built so far.
    pub fn as_str(&self) -> (r: &str)
        ensures
            r@ == self@,
    {
        self.content.as_str()
    }
}

/// The pieces that frame a block of text: the strings of the four sides and
/// the four corner characters.
pub struct Frame {
    top: String,
    bottom: String,
    left: String,
    right: String,
    top_left_corner: char,
    top_right_corner: char,
    bottom_left_corner: char,
    bottom_right_corner: char,
}

impl Frame {
    /// The sides: top, bottom, left, right.
    pub closed spec fn sides(&self) -> (Seq<char>, Seq<char>, Seq<char>, Seq<char>) {
        (self.top@, self.bottom@, self.left@, self.right@)
    }

    /// The corners: top left, top right, bottom left, bottom right.
    pub closed spec fn corners(&self) -> (char, char, char, char) {
        (self.top_left_corner, self.top_right_corner, self.bottom_left_corner,
            self.bottom_right_corner)
    }

    pub fn new(top: &str, bottom: &str, left: &str, right: &str, corners: (char, char, char, char)) -> (r: Self)
        ensures
            r.sides() == (top@, bottom@, left@, right@),
            r.corners() == corners,
    {
        Frame {
            top: top.to_owned(),
            bottom: bottom.to_owned(),
            left: left.to_owned(),
            right: right.to_owned(),
            top_left_corner: corners.0,
            top_right_corner: corners.1,
            bottom_left_corner: corners.2,
            bottom_right_corner: corners.3,
        }
    }
}

} // verus!
