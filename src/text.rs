use crate::position::{
    annotate, clusters_atomic, columns_restart, grapheme_split, offsets_ordered, to_fat_chars,
    lemma_values_of, values_of, zero_index, FatChar, PositionIndex,
};
use itertools::Itertools;
use vstd::prelude::*;

verus! {

/// A persistent list of annotated scalars: clones and slices share their storage.
#[verifier::external_body]
pub struct ScalarList {
    items: im_lists::list::List<FatChar>,
}

/// What a persistent list holds, front first.
pub uninterp spec fn list_items(l: ScalarList) -> Seq<FatChar>;

impl ScalarList {
    /// Relies on im_lists' `FromIterator` for `List`: the items in the order given.
    #[verifier::external_body]
    fn from_vec(v: Vec<FatChar>) -> (r: ScalarList)
        ensures
            list_items(r) == v@,
    {
        ScalarList { items: v.into_iter().collect() }
    }

    /// Relies on `List::clone`: the clone holds the same items.
    #[verifier::external_body]
    fn share(&self) -> (r: ScalarList)
        ensures
            list_items(r) == list_items(*self),
    {
        ScalarList { items: self.items.clone() }
    }

    /// Relies on `List::len`: the number of items.
    #[verifier::external_body]
    fn len(&self) -> (r: usize)
        ensures
            r == list_items(*self).len(),
    {
        self.items.len()
    }

    /// Relies on `List::first`: the front item, if any.
    #[verifier::external_body]
    fn first(&self) -> (r: Option<FatChar>)
        ensures
            list_items(*self).len() == 0 ==> r.is_none(),
            list_items(*self).len() > 0 ==> r == Some(list_items(*self)[0]),
    {
        self.items.first().copied()
    }

    /// Relies on `List::get`: the item at `index`, counted from the front, if
    /// there is one.
    #[verifier::external_body]
    fn get(&self, index: usize) -> (r: Option<FatChar>)
        ensures
            index < list_items(*self).len() ==> r == Some(list_items(*self)[index as int]),
            index >= list_items(*self).len() ==> r.is_none(),
    {
        self.items.get(index).copied()
    }

    /// Relies on `List::take`: the first `count` items, or all of them if fewer.
    #[verifier::external_body]
    fn take(&self, count: usize) -> (r: ScalarList)
        ensures
            count <= list_items(*self).len() ==> list_items(r) == list_items(*self).take(count as int),
            count > list_items(*self).len() ==> list_items(r) == list_items(*self),
    {
        ScalarList { items: self.items.take(count) }
    }

    /// Relies on `List::tail`: the items after the first `count`, or nothing if
    /// there are fewer than `count`.
    #[verifier::external_body]
    fn tail(&self, count: usize) -> (r: Option<ScalarList>)
        ensures
            count <= list_items(*self).len() ==> r is Some && list_items(r->0)
                == list_items(*self).skip(count as int),
            count > list_items(*self).len() ==> r is None,
    {
        self.items.tail(count).map(|items| ScalarList { items })
    }

    /// Relies on `List::iter`: the items, front first.
    #[verifier::external_body]
    fn to_vec(&self) -> (r: Vec<FatChar>)
        ensures
            r@ == list_items(*self),
    {
        self.items.iter().copied().collect()
    }
}

/// Relies on itertools' `collect_vec` over `str::chars`: the scalars of a text.
#[verifier::external_body]
pub(crate) fn scalars_of(s: &str) -> (r: Vec<char>)
    ensures
        r@ == s@,
{
    s.chars().collect_vec()
}

/// Relies on `String`'s `FromIterator<char>`: the text spelled by the scalars.
#[verifier::external_body]
pub(crate) fn string_of(v: &Vec<char>) -> (r: String)
    ensures
        r@ == v@,
{
    v.iter().collect()
}

/// Whether `t` begins with the scalars of `p`. An empty prefix matches an empty
/// text only.
pub open spec fn spec_has_prefix(t: Seq<FatChar>, p: Seq<char>) -> bool {
    if t.len() == 0 && p.len() == 0 {
        true
    } else if t.len() == 0 || p.len() == 0 {
        false
    } else {
        p.len() <= t.len() && forall|i: int| 0 <= i < p.len() ==> #[trigger] t[i].value == p[i]
    }
}

/// Popping a prefix that the text begins with yields a part that spells the
/// prefix and a rest, which put back together give the text again.
pub proof fn lemma_pop_prefix_round_trip(t: Seq<FatChar>, p: Seq<char>)
    requires
        spec_has_prefix(t, p),
    ensures
        p.len() <= t.len(),
        values_of(t.take(p.len() as int)) == p,
        t.take(p.len() as int) + t.skip(p.len() as int) == t,
{
    lemma_values_of(t.take(p.len() as int));
    assert(values_of(t.take(p.len() as int)) =~= p);
    assert(t.take(p.len() as int) + t.skip(p.len() as int) =~= t);
}

/// An immutable run of annotated scalars; every operation returns a new text
/// that shares storage with the one it came from.
pub struct Text {
    data: ScalarList,
}

impl View for Text {
    type V = Seq<FatChar>;

    closed spec fn view(&self) -> Seq<FatChar> {
        list_items(self.data)
    }
}

impl Clone for Text {
    fn clone(&self) -> (r: Text)
        ensures
            r@ == self@,
    {
        Text { data: self.data.share() }
    }
}

impl Text {
    /// The annotated scalars of `source`.
    pub fn initialize_from(source: &str) -> (r: Text)
        requires
            source@.len() < usize::MAX,
        ensures
            r@ == annotate(grapheme_split(source@)),
            offsets_ordered(r@),
            clusters_atomic(r@),
            columns_restart(r@),
            values_of(r@) == source@,
            r@.len() == source@.len(),
            r@.len() > 0 ==> r@[0].index == zero_index(),
    {
        Text { data: ScalarList::from_vec(to_fat_chars(source)) }
    }

    pub fn from_iter(list: Vec<FatChar>) -> (r: Text)
        ensures
            r@ == list@,
    {
        Text { data: ScalarList::from_vec(list) }
    }

    pub fn start(&self) -> (r: Option<FatChar>)
        ensures
            self@.len() == 0 ==> r.is_none(),
            self@.len() > 0 ==> r == Some(self@[0]),
    {
        self.data.first()
    }

    pub fn end(&self) -> (r: Option<FatChar>)
        ensures
            self@.len() == 0 ==> r.is_none(),
            self@.len() > 0 ==> r == Some(self@.last()),
    {
        let n = self.data.len();
        if n == 0 {
            return None;
        }
        self.data.get(n - 1)
    }

    pub fn start_index(&self) -> (r: Option<PositionIndex>)
        ensures
            self@.len() == 0 ==> r.is_none(),
            self@.len() > 0 ==> r == Some(self@[0].index),
    {
        match self.data.first() {
            Some(c) => Some(c.index),
            None => None,
        }
    }

    pub fn end_index(&self) -> (r: Option<PositionIndex>)
        ensures
            self@.len() == 0 ==> r.is_none(),
            self@.len() > 0 ==> r == Some(self@.last().index),
    {
        match self.end() {
            Some(c) => Some(c.index),
            None => None,
        }
    }

    pub fn is_empty(&self) -> (r: bool)
        ensures
            r == (self@.len() == 0),
    {
        self.data.len() == 0
    }

    pub fn len(&self) -> (r: usize)
        ensures
            r == self@.len(),
    {
        self.data.len()
    }

    /// Whether the text begins with the scalars of `prefix`; an empty prefix
    /// matches an empty text only.
    pub fn has_prefix(&self, prefix: &str) -> (r: bool)
        ensures
            r == spec_has_prefix(self@, prefix@),
    {
        let prefix_chars = scalars_of(prefix);
        let n = self.data.len();
        if n == 0 && prefix_chars.len() == 0 {
            return true;
        }
        if n == 0 || prefix_chars.len() == 0 {
            return false;
        }
        if n < prefix_chars.len() {
            return false;
        }
        let mut rest = self.data.share();
        let mut i: usize = 0;
        while i < prefix_chars.len()
            invariant
                prefix_chars@ == prefix@,
                prefix@.len() <= self@.len(),
                0 <= i <= prefix@.len(),
                list_items(rest) == self@.skip(i as int),
                forall|k: int| 0 <= k < i ==> #[trigger] self@[k].value == prefix@[k],
            decreases prefix@.len() - i,
        {
            match rest.first() {
                Some(c) => {
                    if c.value != prefix_chars[i] {
                        return false;
                    }
                },
                None => {
                    return false;
                },
            }
            match rest.tail(1) {
                Some(t) => {
                    rest = t;
                },
                None => {
                    return false;
                },
            }
            i = i + 1;
            proof {
                assert(list_items(rest) =~= self@.skip(i as int));
            }
        }
        true
    }

    /// Splits off the scalars of `prefix` from the front, when the text begins
    /// with them.
    pub fn pop_prefix(&self, prefix: &str) -> (r: Option<(Text, Text)>)
        ensures
            r is None <==> !spec_has_prefix(self@, prefix@),
            r matches Some((m, rest)) ==> m@ == self@.take(prefix@.len() as int) && rest@
                == self@.skip(prefix@.len() as int) && values_of(m@) == prefix@,
    {
        let prefix_len = scalars_of(prefix).len();
        if !self.has_prefix(prefix) {
            return None;
        }
        let leading = self.data.take(prefix_len);
        let trailing = match self.data.tail(prefix_len) {
            Some(t) => t,
            None => {
                return None;
            },
        };
        proof {
            lemma_pop_prefix_round_trip(self@, prefix@);
        }
        Some((self.set_data(leading), self.set_data(trailing)))
    }

    /// Splits the text after `count` scalars, when it holds that many.
    pub fn take(&self, count: usize) -> (r: Option<(Text, Text)>)
        ensures
            r is None <==> self@.len() < count,
            r matches Some((l, t)) ==> l@ == self@.take(count as int) && t@ == self@.skip(
                count as int,
            ),
    {
        if self.data.len() < count {
            return None;
        }
        let leading = self.set_data(self.data.take(count));
        let trailing = match self.data.tail(count) {
            Some(t) => self.set_data(t),
            None => {
                return None;
            },
        };
        Some((leading, trailing))
    }

    /// The first scalar and the rest of the text, when it is not empty.
    pub fn uncons(&self) -> (r: Option<(FatChar, Text)>)
        ensures
            r is None <==> self@.len() == 0,
            r matches Some((c, t)) ==> c == self@[0] && t@ == self@.drop_first(),
    {
        match self.data.first() {
            Some(first) => match self.data.tail(1) {
                Some(rest) => Some((first, self.set_data(rest))),
                None => None,
            },
            None => None,
        }
    }

    /// The scalars of the text, as a string.
    pub fn render(&self) -> (r: String)
        ensures
            r@ == values_of(self@),
    {
        let items = self.data.to_vec();
        let mut out: Vec<char> = Vec::new();
        let mut i: usize = 0;
        while i < items.len()
            invariant
                items@ == self@,
                0 <= i <= items@.len(),
                out@ == values_of(items@.take(i as int)),
            decreases items@.len() - i,
        {
            out.push(items[i].value);
            i = i + 1;
            proof {
                assert(items@.take(i as int).drop_last() =~= items@.take(i as int - 1));
            }
        }
        proof {
            assert(items@.take(i as int) =~= items@);
        }
        string_of(&out)
    }

    fn set_data(&self, data: ScalarList) -> (r: Text)
        ensures
            r@ == list_items(data),
    {
        Text { data }
    }
}

} // verus!
