//! Processes to end when the bar closes: a command, and the ids of the
//! processes to run it on.

use vstd::prelude::*;
use crate::chars::{is_space, is_whitespace, texts, to_chars};

verus! {

/// The words of `s`: its longest stretches without white space, in order.
pub open spec fn words(s: Seq<char>) -> Seq<Seq<char>>
    decreases s.len(),
{
    if s.len() == 0 {
        Seq::empty()
    } else {
        let before = words(s.drop_last());
        if is_whitespace(s.last()) {
            before
        } else if s.len() >= 2 && !is_whitespace(s[s.len() - 2]) {
            before.update(before.len() - 1, before.last().push(s.last()))
        } else {
            before.push(seq![s.last()])
        }
    }
}

/// The words of `s`, see `words`.
pub fn split_words(s: &str) -> (list: Vec<String>)
    ensures
        texts(list@) == words(s@),
{
    let v = to_chars(s);
    let mut list: Vec<String> = Vec::new();
    let mut word = String::new();
    let mut open = false;
    let mut i: usize = 0;
    assert(v@.take(0) == Seq::<char>::empty());
    assert(texts(list@) =~= Seq::<Seq<char>>::empty());
    while i < v.len()
        invariant
            i <= v.len(),
            v@ == s@,
            open <==> i > 0 && !is_whitespace(v@[i - 1]),
            !open ==> word@.len() == 0,
            words(v@.take(i as int)) == if open {
                texts(list@).push(word@)
            } else {
                texts(list@)
            },
        decreases v.len() - i,
    {
        let c = v[i];
        let ghost before = words(v@.take(i as int));
        let ghost lines = texts(list@);
        assert(v@.take(i + 1).drop_last() == v@.take(i as int));
        if i > 0 {
            assert(v@.take(i + 1)[i - 1] == v@[i - 1]);
        }
        if is_space(c) {
            if open {
                list.push(word);
                word = String::new();
                open = false;
                assert(texts(list@) =~= lines.push(list@[list@.len() - 1]@));
            }
        } else {
            word.push(c);
            if open {
                assert(before.update(before.len() - 1, before.last().push(c)) =~= lines.push(word@));
            } else {
                assert(word@ =~= seq![c]);
            }
            open = true;
        }
        i += 1;
    }
    assert(v@.take(i as int) == v@);
    if open {
        let ghost lines = texts(list@);
        list.push(word);
        assert(texts(list@) =~= lines.push(list@[list@.len() - 1]@));
    }
    list
}

/// A command to end processes with, and the processes to end.
pub struct KillMeModule {
    command: String,
    args: Vec<String>,
    list: Vec<u32>,
}

impl KillMeModule {
    #[verifier::type_invariant]
    spec fn inv(self) -> bool {
        self.list@.no_duplicates()
    }

    /// The program to run.
    pub closed spec fn program(&self) -> Seq<char> {
        self.command@
    }

    /// The arguments that come before the process id.
    pub closed spec fn arguments(&self) -> Seq<Seq<char>> {
        texts(self.args@)
    }

    /// The ids of the processes to end.
    pub closed spec fn ids(&self) -> Seq<u32> {
        self.list@
    }

    /// The module for the command line `cmd`: its first word is the program,
    /// its other words are the arguments, and there is no process to end
    /// yet.
    pub fn new(cmd: String) -> (module: Self)
        ensures
            module.program() == if words(cmd@).len() > 0 {
                words(cmd@)[0]
            } else {
                Seq::<char>::empty()
            },
            module.arguments() == if words(cmd@).len() > 0 {
                words(cmd@).drop_first()
            } else {
                Seq::<Seq<char>>::empty()
            },
            module.ids() == Seq::<u32>::empty(),
    {
        let mut args = split_words(cmd.as_str());
        let ghost all = texts(args@);
        let command = if args.len() > 0 {
            let first = args.remove(0);
            assert(first@ == all[0]);
            assert(texts(args@) =~= all.drop_first());
            first
        } else {
            assert(texts(args@) =~= Seq::<Seq<char>>::empty());
            String::new()
        };
        Self { command, args, list: Vec::new() }
    }

    /// The program to run.
    pub fn command(&self) -> (command: &String)
        ensures
            command@ == self.program(),
    {
        &self.command
    }

    /// The arguments that come before the process id.
    pub fn args(&self) -> (args: &Vec<String>)
        ensures
            texts(args@) == self.arguments(),
    {
        &self.args
    }

    /// Hands out the ids of the processes to end, each once and in the order
    /// in which they came, and forgets them.
    pub fn kill_all(&mut self) -> (ids: Vec<u32>)
        ensures
            ids@ == old(self).ids(),
            ids@.no_duplicates(),
            final(self).ids() == Seq::<u32>::empty(),
            final(self).program() == old(self).program(),
            final(self).arguments() == old(self).arguments(),
    {
        proof {
            use_type_invariant(&*self);
        }
        let mut module = KillMeModule { command: String::new(), args: Vec::new(), list: Vec::new() };
        std::mem::swap(self, &mut module);
        let KillMeModule { command, args, list } = module;
        *self = KillMeModule { command, args, list: Vec::new() };
        list
    }

    /// Notes the process `id`, unless it is noted already.
    pub fn push(&mut self, id: u32)
        ensures
            final(self).ids() == if old(self).ids().contains(id) {
                old(self).ids()
            } else {
                old(self).ids().push(id)
            },
            final(self).ids().no_duplicates(),
            final(self).program() == old(self).program(),
            final(self).arguments() == old(self).arguments(),
    {
        proof {
            use_type_invariant(&*self);
        }
        let mut i: usize = 0;
        while i < self.list.len()
            invariant
                i <= self.list.len(),
                *self == *old(self),
                self.list@.no_duplicates(),
                forall|j: int| 0 <= j < i ==> self.list@[j] != id,
            decreases self.list.len() - i,
        {
            if self.list[i] == id {
                return;
            }
            i += 1;
        }
        assert(!self.list@.contains(id));
        let mut module = KillMeModule { command: String::new(), args: Vec::new(), list: Vec::new() };
        std::mem::swap(self, &mut module);
        let KillMeModule { command, args, list } = module;
        let mut list = list;
        list.push(id);
        *self = KillMeModule { command, args, list };
    }
}

} // verus!
