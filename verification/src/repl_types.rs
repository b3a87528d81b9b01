//! The description of a REPL command, as the help text lists it.
use vstd::prelude::*;
use crate::text::{pad_right, pad_right_str};

verus! {

/// A REPL command: its name, other names, the form its help shows, and what
/// it does.
pub struct CommandSpec {
    pub name: &'static str,
    pub aliases: &'static [&'static str],
    pub usage_hint: Option<&'static str>,
    pub description: &'static str,
}

/// The first column of a command's help line: its usage hint (or its name),
/// then each alias after a comma.
pub open spec fn doc_entry(name: Seq<char>, aliases: Seq<Seq<char>>, usage_hint: Option<Seq<char>>) -> Seq<char>
    decreases aliases.len(),
{
    if aliases.len() == 0 {
        match usage_hint {
            Some(h) => h,
            None => name,
        }
    } else {
        doc_entry(name, aliases.drop_last(), usage_hint) + ", "@ + aliases.last()
    }
}

/// A command's help line: the first column padded to thirty characters, a
/// space, and the description.
pub open spec fn doc_line(entry: Seq<char>, description: Seq<char>) -> Seq<char> {
    pad_right(entry, 30) + " "@ + description
}

impl CommandSpec {
    /// The views of the aliases.
    pub open spec fn alias_views(&self) -> Seq<Seq<char>> {
        self.aliases@.map_values(|a: &str| a@)
    }

    /// The hint's view, if there is one.
    pub open spec fn hint_view(&self) -> Option<Seq<char>> {
        match self.usage_hint {
            Some(h) => Some(h@),
            None => None,
        }
    }

    /// The command's name, aliases, usage hint and description.
    pub open spec fn model(&self) -> (Seq<char>, Seq<Seq<char>>, Option<Seq<char>>, Seq<char>) {
        (self.name@, self.alias_views(), self.hint_view(), self.description@)
    }

    /// The command's line in the help text.
    pub fn doc_string(&self) -> (r: String)
        ensures
            r@ == doc_line(doc_entry(self.name@, self.alias_views(), self.hint_view()), self.description@),
    {
        let mut entry = match self.usage_hint {
            Some(h) => h.to_owned(),
            None => self.name.to_owned(),
        };
        let mut i: usize = 0;
        assert(self.alias_views().take(0) =~= Seq::<Seq<char>>::empty());
        while i < self.aliases.len()
            invariant
                i <= self.aliases@.len(),
                entry@ == doc_entry(self.name@, self.alias_views().take(i as int), self.hint_view()),
            decreases self.aliases@.len() - i,
        {
            entry.append(", ");
            entry.append(self.aliases[i]);
            proof {
                let t = self.alias_views().take(i + 1);
                assert(t.drop_last() =~= self.alias_views().take(i as int));
                assert(t.last() == self.aliases@[i as int]@);
            }
            i = i + 1;
        }
        assert(self.alias_views().take(i as int) =~= self.alias_views());
        let mut doc = pad_right_str(entry.as_str(), 30);
        doc.append(" ");
        doc.append(self.description);
        doc
    }
}

} // verus!
