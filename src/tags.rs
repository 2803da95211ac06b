//! The secondary index of single-character tags.
use vstd::prelude::*;

verus! {

/// A tag is indexed when it has a value and its key is one character long.
pub open spec fn indexed(tag: Vec<String>) -> bool {
    tag@.len() >= 2 && tag@[0]@.len() == 1
}

/// Some tag among the first `n` is indexed under `key` with `value`.
pub open spec fn tags_have(tags: Seq<Vec<String>>, n: int, key: Seq<char>, value: Seq<char>) -> bool {
    exists|i: int|
        0 <= i < n && #[trigger] indexed(tags[i]) && tags[i]@[0]@ == key && tags[i]@[1]@ == value
}

/// The index built from key/value pairs that satisfy `rel`: each key that has a
/// value, with the set of its values.
pub open spec fn index_of(rel: spec_fn(Seq<char>, Seq<char>) -> bool) -> Map<
    Seq<char>,
    Set<Seq<char>>,
> {
    Map::new(|k: Seq<char>| exists|v: Seq<char>| #[trigger] rel(k, v), |k: Seq<char>| Set::new(|v: Seq<char>| rel(k, v)))
}

/// The index of a tag list: every single-character key that carries a value,
/// mapped to the set of the first values of its tags.
pub open spec fn tag_index(tags: Seq<Vec<String>>) -> Map<Seq<char>, Set<Seq<char>>> {
    index_of(|k: Seq<char>, v: Seq<char>| tags_have(tags, tags.len() as int, k, v))
}

/// Index of single-character tag keys to their values, as distinct pairs.
pub struct TagIndex {
    pub pairs: Vec<(String, String)>,
}

/// Some pair of `pairs` is `(key, value)`.
pub open spec fn pairs_have(pairs: Seq<(String, String)>, key: Seq<char>, value: Seq<char>) -> bool {
    exists|j: int| 0 <= j < pairs.len() && (#[trigger] pairs[j]).0@ == key && pairs[j].1@ == value
}

/// No two entries of `pairs` hold the same key and value.
pub open spec fn distinct_pairs(pairs: Seq<(String, String)>) -> bool {
    forall|a: int, b: int|
        0 <= a < b < pairs.len() ==> !((#[trigger] pairs[a]).0@ == (#[trigger] pairs[b]).0@
            && pairs[a].1@ == pairs[b].1@)
}

impl TagIndex {
    pub open spec fn has_pair(&self, key: Seq<char>, value: Seq<char>) -> bool {
        pairs_have(self.pairs@, key, value)
    }

    /// No pair is held twice.
    pub open spec fn wf(&self) -> bool {
        distinct_pairs(self.pairs@)
    }

    pub open spec fn view(&self) -> Map<Seq<char>, Set<Seq<char>>> {
        index_of(|k: Seq<char>, v: Seq<char>| self.has_pair(k, v))
    }
}

fn holds_pair(pairs: &Vec<(String, String)>, key: &String, value: &String) -> (r: bool)
    ensures
        r == pairs_have(pairs@, key@, value@),
{
    let mut j: usize = 0;
    while j < pairs.len()
        invariant
            j <= pairs@.len(),
            forall|x: int| 0 <= x < j ==> !((#[trigger] pairs@[x]).0@ == key@ && pairs@[x].1@ == value@),
        decreases pairs@.len() - j,
    {
        if pairs[j].0 == *key && pairs[j].1 == *value {
            return true;
        }
        j += 1;
    }
    false
}

/// Builds the index of an event's tags. Only the first value of a tag is
/// kept, tags without a value or with a key that is not exactly one
/// character long are skipped, and repeated values of a key collapse.
pub fn convert_tags(tags: &Vec<Vec<String>>) -> (r: TagIndex)
    ensures
        r.wf(),
        r@ == tag_index(tags@),
        forall|k: Seq<char>, v: Seq<char>| r.has_pair(k, v) <==> tags_have(tags@, tags@.len() as int, k, v),
{
    let mut pairs: Vec<(String, String)> = Vec::new();
    let mut i: usize = 0;
    while i < tags.len()
        invariant
            i <= tags@.len(),
            distinct_pairs(pairs@),
            forall|k: Seq<char>, v: Seq<char>|
                pairs_have(pairs@, k, v) <==> tags_have(tags@, i as int, k, v),
        decreases tags@.len() - i,
    {
        let t = &tags[i];
        let ghost before = pairs@;
        if t.len() >= 2 && t[0].as_str().unicode_len() == 1 {
            let key = &t[0];
            let value = &t[1];
            if !holds_pair(&pairs, key, value) {
                pairs.push((key.clone(), value.clone()));
                assert forall|a: int, b: int|
                    0 <= a < b < pairs@.len() implies !((#[trigger] pairs@[a]).0@ == (
                    #[trigger] pairs@[b]).0@ && pairs@[a].1@ == pairs@[b].1@) by {
                    assert(before[a] == pairs@[a]);
                    if b == before.len() {
                        assert(pairs@[b].0@ == key@ && pairs@[b].1@ == value@);
                        assert(!(before[a].0@ == key@ && before[a].1@ == value@));
                    } else {
                        assert(before[b] == pairs@[b]);
                        assert(!(before[a].0@ == before[b].0@ && before[a].1@ == before[b].1@));
                    }
                }
                assert forall|k: Seq<char>, v: Seq<char>|
                    pairs_have(pairs@, k, v) <==> pairs_have(before, k, v) || (k == key@ && v
                        == value@) by {
                    if pairs_have(before, k, v) {
                        let j = choose|j: int|
                            0 <= j < before.len() && (#[trigger] before[j]).0@ == k && before[j].1@
                                == v;
                        assert(pairs@[j] == before[j]);
                    }
                    if k == key@ && v == value@ {
                        assert(pairs@[before.len() as int].0@ == k);
                    }
                    if pairs_have(pairs@, k, v) {
                        let j = choose|j: int|
                            0 <= j < pairs@.len() && (#[trigger] pairs@[j]).0@ == k && pairs@[j].1@
                                == v;
                        if j < before.len() {
                            assert(before[j] == pairs@[j]);
                        }
                    }
                }
            } else {
                assert forall|k: Seq<char>, v: Seq<char>|
                    pairs_have(pairs@, k, v) <==> pairs_have(before, k, v) || (k == key@ && v
                        == value@) by {}
            }
            assert(indexed(tags@[i as int]));
            assert forall|k: Seq<char>, v: Seq<char>|
                pairs_have(pairs@, k, v) <==> tags_have(tags@, i + 1, k, v) by {
                if tags_have(tags@, i + 1, k, v) && !tags_have(tags@, i as int, k, v) {
                    let x = choose|x: int|
                        0 <= x < i + 1 && #[trigger] indexed(tags@[x]) && tags@[x]@[0]@ == k
                            && tags@[x]@[1]@ == v;
                    if x < i {
                        assert(tags_have(tags@, i as int, k, v));
                    }
                    assert(k == key@ && v == value@);
                }
                if tags_have(tags@, i as int, k, v) {
                    let x = choose|x: int|
                        0 <= x < i && #[trigger] indexed(tags@[x]) && tags@[x]@[0]@ == k
                            && tags@[x]@[1]@ == v;
                    assert(indexed(tags@[x]));
                }
                if pairs_have(pairs@, k, v) && !pairs_have(before, k, v) {
                    assert(k == key@ && v == value@);
                    assert(tags@[i as int]@[0]@ == k);
                }
            }
        } else {
            assert forall|k: Seq<char>, v: Seq<char>|
                pairs_have(pairs@, k, v) <==> tags_have(tags@, i + 1, k, v) by {
                if tags_have(tags@, i + 1, k, v) {
                    let x = choose|x: int|
                        0 <= x < i + 1 && #[trigger] indexed(tags@[x]) && tags@[x]@[0]@ == k
                            && tags@[x]@[1]@ == v;
                    assert(x != i);
                }
                if tags_have(tags@, i as int, k, v) {
                    let x = choose|x: int|
                        0 <= x < i && #[trigger] indexed(tags@[x]) && tags@[x]@[0]@ == k
                            && tags@[x]@[1]@ == v;
                    assert(indexed(tags@[x]));
                }
            }
        }
        i += 1;
    }
    let r = TagIndex { pairs };
    let ghost held = |k: Seq<char>, v: Seq<char>| r.has_pair(k, v);
    let ghost tagged = |k: Seq<char>, v: Seq<char>| tags_have(tags@, tags@.len() as int, k, v);
    assert(held =~= tagged);
    r
}

/// A tag without a value, or whose key is not exactly one character long,
/// adds nothing to the index.
pub proof fn lemma_unindexed_tag_is_dropped(tags: Seq<Vec<String>>, tag: Vec<String>)
    requires
        !indexed(tag),
    ensures
        tag_index(tags.push(tag)) == tag_index(tags),
{
    let longer = tags.push(tag);
    let a = |k: Seq<char>, v: Seq<char>| tags_have(longer, longer.len() as int, k, v);
    let b = |k: Seq<char>, v: Seq<char>| tags_have(tags, tags.len() as int, k, v);
    assert forall|k: Seq<char>, v: Seq<char>| #[trigger] a(k, v) == b(k, v) by {
        if a(k, v) {
            let x = choose|x: int|
                0 <= x < longer.len() && #[trigger] indexed(longer[x]) && longer[x]@[0]@ == k
                    && longer[x]@[1]@ == v;
            assert(longer[x] == tags[x]);
        }
        if b(k, v) {
            let x = choose|x: int|
                0 <= x < tags.len() && #[trigger] indexed(tags[x]) && tags[x]@[0]@ == k
                    && tags[x]@[1]@ == v;
            assert(longer[x] == tags[x]);
        }
    }
    assert(a =~= b);
}

/// A value that the index already holds under a key collapses with it: a
/// repeated tag leaves the index unchanged.
pub proof fn lemma_repeated_value_collapses(tags: Seq<Vec<String>>, tag: Vec<String>)
    requires
        indexed(tag),
        tags_have(tags, tags.len() as int, tag@[0]@, tag@[1]@),
    ensures
        tag_index(tags.push(tag)) == tag_index(tags),
{
    let longer = tags.push(tag);
    let a = |k: Seq<char>, v: Seq<char>| tags_have(longer, longer.len() as int, k, v);
    let b = |k: Seq<char>, v: Seq<char>| tags_have(tags, tags.len() as int, k, v);
    assert forall|k: Seq<char>, v: Seq<char>| #[trigger] a(k, v) == b(k, v) by {
        if a(k, v) {
            let x = choose|x: int|
                0 <= x < longer.len() && #[trigger] indexed(longer[x]) && longer[x]@[0]@ == k
                    && longer[x]@[1]@ == v;
            if x < tags.len() {
                assert(longer[x] == tags[x]);
            }
        }
        if b(k, v) {
            let x = choose|x: int|
                0 <= x < tags.len() && #[trigger] indexed(tags[x]) && tags[x]@[0]@ == k
                    && tags[x]@[1]@ == v;
            assert(longer[x] == tags[x]);
        }
    }
    assert(a =~= b);
}

} // verus!
