//! Lists of entries in which a later entry replaces an earlier one of the
//! same key.
use crate::text::same_text;
use vstd::prelude::*;

verus! {

/// The entries by key, the last one of each key counting.
pub open spec fn latest<V>(s: Seq<(String, V)>) -> Map<Seq<char>, V>
    decreases s.len(),
{
    if s.len() == 0 {
        Map::empty()
    } else {
        latest(s.drop_last()).insert(s.last().0@, s.last().1)
    }
}

/// The last entry of the given key.
pub fn find_latest<'a, V>(list: &'a Vec<(String, V)>, key: &str) -> (r: Option<&'a V>)
    ensures
        match r {
            Some(v) => latest(list@).contains_key(key@) && latest(list@)[key@] == *v,
            None => !latest(list@).contains_key(key@),
        },
{
    let mut i: usize = list.len();
    assert(list@.take(list@.len() as int) =~= list@);
    while i > 0
        invariant
            i <= list@.len(),
            latest(list@).contains_key(key@) == latest(list@.take(i as int)).contains_key(key@),
            latest(list@).contains_key(key@) ==> latest(list@)[key@] == latest(
                list@.take(i as int),
            )[key@],
        decreases i,
    {
        i = i - 1;
        proof {
            assert(list@.take(i + 1).drop_last() =~= list@.take(i as int));
            assert(list@.take(i + 1).last() == list@[i as int]);
        }
        if same_text(list[i].0.as_str(), key) {
            return Some(&list[i].1);
        }
    }
    None
}

/// Adding an entry.
pub proof fn lemma_latest_push<V>(s: Seq<(String, V)>, e: (String, V))
    ensures
        latest(s.push(e)) == latest(s).insert(e.0@, e.1),
{
    assert(s.push(e).drop_last() =~= s);
}

} // verus!
