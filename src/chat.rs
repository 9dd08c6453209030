use vstd::prelude::*;
use vstd::string::StringExecFns;

verus! {

/// The line a client shows when `name` arrives.
pub open spec fn joined_line(name: Seq<char>) -> Seq<char> {
    name + " joined"@
}

/// The line a client shows when `name` leaves.
pub open spec fn left_line(name: Seq<char>) -> Seq<char> {
    name + " left"@
}

/// The line a client shows when `name` says `message`.
pub open spec fn said_line(name: Seq<char>, message: Seq<char>) -> Seq<char> {
    name + ": "@ + message
}

/// The lines of `lines`, one after the other, with a line break between two.
pub open spec fn transcript_of(lines: Seq<Seq<char>>) -> Seq<char>
    decreases lines.len(),
{
    if lines.len() == 0 {
        seq![]
    } else if lines.len() == 1 {
        lines[0]
    } else {
        transcript_of(lines.drop_last()) + "\n"@ + lines.last()
    }
}

/// The append-only transcript a client keeps of arrivals, departures and chat.
pub struct Chat {
    pub messages: Vec<String>,
}

impl View for Chat {
    type V = Seq<Seq<char>>;

    open spec fn view(&self) -> Seq<Seq<char>> {
        self.messages@.map_values(|s: String| s@)
    }
}

/// The line shown when `name` arrives.
pub fn joined_text(name: &String) -> (r: String)
    ensures
        r@ == joined_line(name@),
{
    name.clone().concat(" joined")
}

/// The line shown when `name` leaves.
pub fn left_text(name: &String) -> (r: String)
    ensures
        r@ == left_line(name@),
{
    name.clone().concat(" left")
}

/// The line shown when `name` says `message`.
pub fn said_text(name: &String, message: &String) -> (r: String)
    ensures
        r@ == said_line(name@, message@),
{
    name.clone().concat(": ").concat(message.as_str())
}

impl Chat {
    /// An empty transcript.
    pub fn new() -> (r: Chat)
        ensures
            r@ == Seq::<Seq<char>>::empty(),
    {
        let r = Chat { messages: Vec::new() };
        assert(r@ =~= Seq::<Seq<char>>::empty());
        r
    }

    /// Appends one line.
    pub fn push(&mut self, line: String)
        ensures
            final(self)@ == old(self)@.push(line@),
    {
        self.messages.push(line);
        assert(self@ =~= old(self)@.push(line@));
    }

    /// The whole transcript as one text, a line break between two lines.
    pub fn transcript(&self) -> (r: String)
        ensures
            r@ == transcript_of(self@),
    {
        let mut out = String::new();
        let mut i: usize = 0;
        while i < self.messages.len()
            invariant
                i <= self.messages@.len(),
                out@ == transcript_of(self@.take(i as int)),
            decreases self.messages@.len() - i,
        {
            if i == 0 {
                out = self.messages[0].clone();
            } else {
                out = out.concat("\n").concat(self.messages[i].as_str());
            }
            proof {
                let t = self@.take(i + 1);
                assert(t.drop_last() =~= self@.take(i as int));
            }
            i = i + 1;
        }
        assert(self@.take(i as int) =~= self@);
        out
    }
}

} // verus!
