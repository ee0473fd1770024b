//! Which card is taken when none is named: the first that opens.

use vstd::prelude::*;

verus! {

/// One card and why it would not open.
pub open spec fn refusal(name: Seq<char>, why: Seq<char>) -> Seq<char> {
    name + ": "@ + why
}

/// The first `n` refusals, in a row.
pub open spec fn refusals(names: Seq<Seq<char>>, whys: Seq<Seq<char>>, n: int) -> Seq<char>
    decreases n,
{
    if n <= 0 {
        Seq::empty()
    } else if n == 1 {
        refusal(names[0], whys[0])
    } else {
        refusals(names, whys, n - 1) + "; "@ + refusal(names[n - 1], whys[n - 1])
    }
}

/// What is said when no card opens.
pub open spec fn no_card_words(names: Seq<Seq<char>>, whys: Seq<Seq<char>>) -> Seq<char> {
    if names.len() == 0 {
        "no ALSA cards present"@
    } else {
        "no ALSA card opened duplex at the engine rate: "@ + refusals(
            names,
            whys,
            names.len() as int,
        )
    }
}

/// The texts behind a list of strings.
pub open spec fn words(list: Seq<String>) -> Seq<Seq<char>> {
    Seq::new(list.len(), |i: int| list[i]@)
}

/// A search for a card that opens. The caller opens the candidates, one by
/// one, and says what came of it.
pub struct CardSearch {
    candidates: Vec<String>,
    next: usize,
    refused: String,
    whys: Ghost<Seq<Seq<char>>>,
}

impl CardSearch {
    /// The cards that can be tried, in order.
    pub closed spec fn candidates(&self) -> Seq<Seq<char>> {
        words(self.candidates@)
    }

    /// Why the cards that were tried would not open.
    pub closed spec fn whys(&self) -> Seq<Seq<char>> {
        self.whys@
    }

    /// The search is in order.
    pub closed spec fn wf(&self) -> bool {
        &&& self.next == self.whys@.len() <= self.candidates@.len()
        &&& self.refused@ == refusals(self.candidates(), self.whys@, self.next as int)
    }

    /// A search that has tried nothing yet.
    pub fn new(candidates: Vec<String>) -> (search: CardSearch)
        ensures
            search.wf(),
            search.candidates() == words(candidates@),
            search.whys() == Seq::<Seq<char>>::empty(),
    {
        let search = CardSearch {
            candidates,
            next: 0,
            refused: String::new(),
            whys: Ghost(Seq::empty()),
        };
        assert(search.refused@ =~= Seq::<char>::empty());
        search
    }

    /// The card to try now, if any is left.
    pub fn candidate(&self) -> (name: Option<&str>)
        requires
            self.wf(),
        ensures
            self.whys().len() <= self.candidates().len(),
            match name {
                Some(name) => {
                    &&& self.whys().len() < self.candidates().len()
                    &&& name@ == self.candidates()[self.whys().len() as int]
                },
                None => self.whys().len() == self.candidates().len(),
            },
    {
        if self.next < self.candidates.len() {
            Some(self.candidates[self.next].as_str())
        } else {
            None
        }
    }

    /// Notes why the card would not open.
    pub fn refuse(&mut self, why: &str)
        requires
            old(self).wf(),
            old(self).whys().len() < old(self).candidates().len(),
        ensures
            final(self).wf(),
            final(self).candidates() == old(self).candidates(),
            final(self).whys() == old(self).whys().push(why@),
    {
        let ghost names = self.candidates();
        let ghost before = self.whys@;
        let count: usize = self.candidates.len();
        assert(self.next < count);
        if self.next > 0 {
            self.refused.append("; ");
        }
        self.refused.append(self.candidates[self.next].as_str());
        self.refused.append(": ");
        self.refused.append(why);
        proof {
            self.whys@ = before.push(why@);
            lemma_refusals_read_their_own(names, before, self.whys@, self.next as int);
            assert(names[self.next as int] == self.candidates@[self.next as int]@);
            assert(self.refused@ =~= refusals(names, self.whys@, self.next + 1));
        }
        self.next = self.next + 1;
        assert(self.candidates() =~= names);
    }

    /// What is said once no card is left.
    pub fn verdict(self) -> (text: String)
        requires
            self.wf(),
            self.whys().len() == self.candidates().len(),
        ensures
            text@ == no_card_words(self.candidates(), self.whys()),
    {
        if self.candidates.len() == 0 {
            return "no ALSA cards present".to_owned();
        }
        let mut text: String = "no ALSA card opened duplex at the engine rate: ".to_owned();
        text.append(self.refused.as_str());
        text
    }
}

proof fn lemma_refusals_read_their_own(
    names: Seq<Seq<char>>,
    a: Seq<Seq<char>>,
    b: Seq<Seq<char>>,
    n: int,
)
    requires
        0 <= n <= a.len() <= b.len(),
        forall|i: int| 0 <= i < n ==> a[i] == #[trigger] b[i],
    ensures
        refusals(names, a, n) == refusals(names, b, n),
    decreases n,
{
    if n > 0 {
        lemma_refusals_read_their_own(names, a, b, n - 1);
        assert(a[n - 1] == b[n - 1]);
    }
}

/// Takes the first candidate that opens, and says of every other that it tried
/// why not. Candidates behind the first success are never tried.
pub fn choose_card<T, F: Fn(&str) -> Result<T, String>>(candidates: Vec<String>, open: F) -> (chosen:
    Result<(String, T), String>)
    requires
        forall|name: &str| call_requires(open, (name,)),
    ensures
        match chosen {
            Ok((name, opened)) => exists|i: int, tried: Seq<&str>, whys: Seq<String>| #[trigger]
                took(open, words(candidates@), i, tried, whys) && name@ == candidates@[i]@
                    && call_ensures(open, (tried[i],), Ok(opened)),
            Err(text) => exists|tried: Seq<&str>, whys: Seq<String>| #[trigger]
                refused_all(open, words(candidates@), tried, whys) && text@ == no_card_words(
                words(candidates@),
                words(whys),
            ),
        },
{
    let ghost names = words(candidates@);
    let mut search: CardSearch = CardSearch::new(candidates);
    let ghost mut tried: Seq<&str> = Seq::empty();
    let ghost mut whys: Seq<String> = Seq::empty();
    let count: usize = search.candidates.len();
    let mut done: usize = 0;
    while done < count
        invariant
            forall|name: &str| call_requires(open, (name,)),
            search.wf(),
            search.candidates() == names,
            names == words(candidates@),
            search.whys() == words(whys),
            done <= count == names.len(),
            whys.len() == done,
            tried.len() == done,
            forall|i: int|
                0 <= i < done ==> (#[trigger] tried[i])@ == names[i] && call_ensures(
                    open,
                    (tried[i],),
                    Err(whys[i]),
                ),
        decreases count - done,
    {
        if let Some(name) = search.candidate() {
            let ghost asked = tried.push(name);
            match open(name) {
                Ok(opened) => {
                    proof {
                        assert(asked[done as int] == name);
                        assert forall|i: int| 0 <= i < done implies (#[trigger] asked[i])@
                            == names[i] && call_ensures(open, (asked[i],), Err(whys[i])) by {
                            assert(asked[i] == tried[i]);
                        }
                        assert(took(open, names, done as int, asked, whys));
                    }
                    return Ok((name.to_owned(), opened));
                },
                Err(why) => {
                    search.refuse(why.as_str());
                    proof {
                        let said = whys.push(why);
                        assert forall|i: int| 0 <= i < done + 1 implies (#[trigger] asked[i])@
                            == names[i] && call_ensures(open, (asked[i],), Err(said[i])) by {
                            if i < done {
                                assert(asked[i] == tried[i]);
                                assert(said[i] == whys[i]);
                            }
                        }
                        assert(words(said) =~= words(whys).push(why@));
                        tried = asked;
                        whys = said;
                    }
                },
            }
        }
        done = done + 1;
    }
    assert(refused_all(open, names, tried, whys));
    Err(search.verdict())
}

/// Whether the candidate at `i` was the first that opened.
pub open spec fn took<T, F: Fn(&str) -> Result<T, String>>(
    open: F,
    names: Seq<Seq<char>>,
    i: int,
    tried: Seq<&str>,
    whys: Seq<String>,
) -> bool {
    &&& 0 <= i < names.len()
    &&& tried.len() == i + 1
    &&& whys.len() == i
    &&& tried[i]@ == names[i]
    &&& forall|j: int|
        0 <= j < i ==> (#[trigger] tried[j])@ == names[j] && call_ensures(
            open,
            (tried[j],),
            Err(whys[j]),
        )
}

/// Whether every candidate was tried and none opened.
pub open spec fn refused_all<T, F: Fn(&str) -> Result<T, String>>(
    open: F,
    names: Seq<Seq<char>>,
    tried: Seq<&str>,
    whys: Seq<String>,
) -> bool {
    &&& tried.len() == names.len()
    &&& whys.len() == names.len()
    &&& forall|j: int|
        0 <= j < names.len() ==> (#[trigger] tried[j])@ == names[j] && call_ensures(
            open,
            (tried[j],),
            Err(whys[j]),
        )
}

} // verus!
