//! The words of a command line, handed out one by one.
use vstd::prelude::*;
use vstd::string::*;

verus! {

/// The words of a command line and a cursor into them, with the help text
/// of the program that reads them. The cursor is one byte wide, and so is
/// the count it is held against: of `n` words, `n % 256` are served.
pub struct Args {
    help: String,
    args: Vec<String>,
    it: u8,
}

/// An `Args` as plain values.
pub struct ArgsView {
    /// The help text.
    pub help: Seq<char>,
    /// The words.
    pub words: Seq<Seq<char>>,
    /// How many words were handed out.
    pub taken: u8,
}

impl ArgsView {
    /// Whether a word is left to hand out.
    pub open spec fn has_next(self) -> bool {
        self.taken < self.words.len() % 256
    }
}

impl View for Args {
    type V = ArgsView;

    closed spec fn view(&self) -> ArgsView {
        ArgsView {
            help: self.help@,
            words: Seq::new(self.args@.len(), |i: int| self.args@[i]@),
            taken: self.it,
        }
    }
}

/// The low eight bits of a count.
fn low_byte(n: usize) -> (b: u8)
    ensures
        b == n % 256,
{
    let b = n as u8;
    assert(b == n % 256) by (bit_vector)
        requires
            b == n as u8,
    ;
    b
}

impl Args {
    /// The words `args` with none handed out yet, and the help text `help`.
    pub fn new(help: &str, args: Vec<String>) -> (a: Self)
        ensures
            a@ == (ArgsView {
                help: help@,
                words: Seq::new(args@.len(), |i: int| args@[i]@),
                taken: 0,
            }),
    {
        Args { help: String::from_str(help), args, it: 0 }
    }

    /// What to show the user for help: the help text, with `msg` and an
    /// empty line before it where there is one.
    pub fn help_text(&self, msg: Option<&str>) -> (text: String)
        ensures
            text@ == (match msg {
                Some(m) => m@ + seq!['\n', '\n'] + self@.help,
                None => self@.help,
            }),
    {
        match msg {
            Some(m) => {
                let mut text = String::from_str(m);
                proof {
                    reveal_strlit("\n\n");
                    assert("\n\n"@ =~= seq!['\n', '\n']);
                }
                text.append("\n\n");
                text.append(self.help.as_str());
                text
            },
            None => self.help.clone(),
        }
    }

    /// The next word, or `None` where none is left.
    pub fn next(&mut self) -> (word: Option<String>)
        ensures
            match word {
                Some(w) => old(self)@.has_next() && w@ == old(self)@.words[old(self)@.taken as int]
                    && final(self)@ == (ArgsView {
                    taken: (old(self)@.taken + 1) as u8,
                    ..old(self)@
                }),
                None => !old(self)@.has_next() && final(self)@ == old(self)@,
            },
    {
        if self.it >= low_byte(self.args.len()) {
            return None;
        }
        self.it = self.it + 1;
        let word = self.args[(self.it - 1) as usize].clone();
        Some(word)
    }

    /// Whether a word is left to hand out.
    pub fn has_next(&self) -> (b: bool)
        ensures
            b == self@.has_next(),
    {
        self.it < low_byte(self.args.len())
    }
}

} // verus!
