//! The argument cursor: an ordered sequence of instruction tokens with a
//! forward-only read position.
//!
//! Consuming past the end yields `None`, never a fault; every consumer is
//! expected to supply its own default when an argument is absent, so a
//! malformed or truncated instruction degrades to defaults instead of
//! stopping the agent.

use vstd::prelude::*;
use crate::strutil::{
    join_sp, join_with, str_views, tokenize, tokens_of_fields, tokens_from_fields, tokens_sp,
    trim_sp, trim_str,
};

verus! {

/// A command's argument tokens and how many of them have been handed out.
pub struct CommandArgs {
    items: Vec<String>,
    count: usize,
}

impl CommandArgs {
    /// The tokens, in order.
    pub closed spec fn items_view(&self) -> Seq<Seq<char>> {
        str_views(self.items@)
    }

    /// How many tokens have been consumed so far.
    pub closed spec fn taken(&self) -> int {
        self.count as int
    }

    /// The read position never runs ahead of the token list.
    pub open spec fn wf(&self) -> bool {
        0 <= self.taken() <= self.items_view().len()
    }

    /// Wraps an already-built token list; nothing is consumed yet.
    pub fn new(args: Vec<String>) -> (r: CommandArgs)
        ensures
            r.items_view() == str_views(args@),
            r.taken() == 0,
            r.wf(),
    {
        CommandArgs { items: args, count: 0 }
    }

    /// Builds the cursor from raw split fields: each field is trimmed and
    /// fields left empty are discarded, so every token is trimmed and
    /// non-empty.
    pub fn from_split(fields: Vec<String>) -> (r: CommandArgs)
        ensures
            r.items_view() == tokens_of_fields(str_views(fields@)),
            r.taken() == 0,
            r.wf(),
    {
        let items = tokens_from_fields(&fields);
        CommandArgs { items, count: 0 }
    }

    /// Builds the cursor from a raw argument string: split on spaces, each
    /// field trimmed, fields left empty discarded.
    pub fn from_string(args_string: String) -> (r: CommandArgs)
        ensures
            r.items_view() == tokens_sp(args_string@),
            r.taken() == 0,
            r.wf(),
    {
        let items = tokenize(args_string.as_str());
        CommandArgs { items, count: 0 }
    }

    /// The not-yet-consumed tokens joined with single spaces, then trimmed;
    /// hands the remainder verbatim to a shell-like handler.
    pub fn to_string(&self) -> (r: String)
        requires
            self.wf(),
        ensures
            r@ == trim_sp(join_sp(self.items_view().skip(self.taken()), " "@)),
    {
        let mut rest: Vec<String> = Vec::new();
        let mut i: usize = self.count;
        proof {
            assert(str_views(rest@) =~~= self.items_view().subrange(
                self.taken(),
                self.taken(),
            ));
        }
        while i < self.items.len()
            invariant
                self.taken() <= i <= self.items_view().len(),
                str_views(rest@) == self.items_view().subrange(self.taken(), i as int),
            decreases self.items.len() - i,
        {
            let ghost rpre = rest@;
            let t = self.items[i].clone();
            rest.push(t);
            i += 1;
            proof {
                crate::strutil::lemma_str_views_push(rpre, t);
                assert(str_views(rest@) =~~= self.items_view().subrange(
                    self.taken(),
                    i as int,
                ));
            }
        }
        proof {
            assert(self.items_view().subrange(
                self.taken(),
                self.items_view().len() as int,
            ) =~~= self.items_view().skip(self.taken()));
        }
        let joined = join_with(&rest, " ");
        let trimmed = trim_str(joined.as_str()).to_owned();
        trimmed
    }

    /// Hands out the next token, or `None` once the tokens are exhausted.
    /// Never a fault, however often it is called.
    pub fn next(&mut self) -> (r: Option<String>)
        ensures
            final(self).items_view() == old(self).items_view(),
            old(self).taken() < old(self).items_view().len() ==> {
                &&& final(self).taken() == old(self).taken() + 1
                &&& r matches Some(t) && t@ == old(self).items_view()[old(self).taken()]
            },
            old(self).taken() >= old(self).items_view().len() ==> {
                &&& final(self).taken() == old(self).taken()
                &&& r is None
            },
            old(self).wf() ==> final(self).wf(),
    {
        if self.items.len() > self.count {
            self.count = self.count + 1;
            let t = self.items[self.count - 1].clone();
            Some(t)
        } else {
            None
        }
    }

    /// Drains and returns every token that has not been consumed yet.
    pub fn collect_remaining(&mut self) -> (r: Vec<String>)
        requires
            old(self).wf(),
        ensures
            final(self).items_view() == old(self).items_view(),
            final(self).taken() == old(self).items_view().len(),
            str_views(r@) == old(self).items_view().skip(old(self).taken()),
    {
        let mut out: Vec<String> = Vec::new();
        proof {
            assert(str_views(out@) =~~= Seq::<Seq<char>>::empty());
        }
        while self.count < self.items.len()
            invariant
                self.items_view() == old(self).items_view(),
                old(self).taken() <= self.taken() <= self.items_view().len(),
                str_views(out@) == self.items_view().subrange(
                    old(self).taken(),
                    self.taken(),
                ),
            decreases self.items.len() - self.count,
        {
            let ghost opre = out@;
            let t = self.items[self.count].clone();
            out.push(t);
            self.count = self.count + 1;
            proof {
                crate::strutil::lemma_str_views_push(opre, t);
                assert(str_views(out@) =~~= self.items_view().subrange(
                    old(self).taken(),
                    self.taken(),
                ));
            }
        }
        proof {
            assert(self.items_view().subrange(
                old(self).taken(),
                self.items_view().len() as int,
            ) =~~= old(self).items_view().skip(old(self).taken()));
        }
        out
    }
}

} // verus!
