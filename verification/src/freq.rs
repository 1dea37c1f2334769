//! Message-frequency statistics: how far back a period reaches, the label
//! of a series, and the hourly counts of each series.
use vstd::prelude::*;
use crate::basics::Duration;
use crate::num::{int_text, push_i64};
use crate::rom_map::{opt_seq, owned_or_empty};
use crate::text::{chars_eq, string_of};

verus! {

/// How many days back a period reaches; none without a period or with an
/// invalid one.
pub open spec fn lookback_spec(d: Option<Duration>) -> Option<i64> {
    match d {
        Some(Duration::Day) => Some(1),
        Some(Duration::Week) => Some(7),
        Some(Duration::Month) => Some(30),
        Some(Duration::Quarter) => Some(90),
        Some(Duration::Year) => Some(365),
        _ => None,
    }
}

pub fn lookback_days(duration: Option<Duration>) -> (r: Option<i64>)
    ensures
        r == lookback_spec(duration),
{
    match duration {
        Some(Duration::Day) => Some(1),
        Some(Duration::Week) => Some(7),
        Some(Duration::Month) => Some(30),
        Some(Duration::Quarter) => Some(90),
        Some(Duration::Year) => Some(365),
        _ => None,
    }
}

/// One row of the statistics query: messages of a user (or of the whole
/// group) in one hour of the day.
#[derive(Clone, Debug, Default)]
pub struct MessageCount {
    pub user_id: Option<i64>,
    pub group_id: i64,
    pub hour_num: i64,
    pub count: i64,
    pub group_username: Option<String>,
    pub group_name: Option<String>,
    pub username: Option<String>,
}

/// The label of a row's series: the user name, else the user id, else the
/// group's name, else its user name, else its id.
pub open spec fn label_spec(r: MessageCount) -> Seq<char> {
    match opt_seq(r.username) {
        Some(u) => u,
        None => match r.user_id {
            Some(id) => int_text(id as int),
            None => match opt_seq(r.group_name) {
                Some(g) => g,
                None => match opt_seq(r.group_username) {
                    Some(g) => g,
                    None => int_text(r.group_id as int),
                },
            },
        },
    }
}

pub fn series_label(row: &MessageCount) -> (r: String)
    ensures
        r@ == label_spec(*row),
{
    match &row.username {
        Some(u) => u.clone(),
        None => match row.user_id {
            Some(id) => {
                let mut v: Vec<char> = Vec::new();
                push_i64(&mut v, id);
                string_of(&v)
            },
            None => match &row.group_name {
                Some(g) => g.clone(),
                None => match &row.group_username {
                    Some(g) => g.clone(),
                    None => {
                        let mut v: Vec<char> = Vec::new();
                        push_i64(&mut v, row.group_id);
                        string_of(&v)
                    },
                },
            },
        },
    }
}

/// The map a list of pairs gives, a later pair of a key replacing an
/// earlier one.
pub open spec fn pairs_map<K, V>(s: Seq<(K, V)>) -> Map<K, V>
    decreases s.len(),
{
    if s.len() == 0 {
        Map::empty()
    } else {
        pairs_map(s.drop_last()).insert(s.last().0, s.last().1)
    }
}

/// No key occurs twice.
pub open spec fn keys_distinct<K, V>(s: Seq<(K, V)>) -> bool {
    forall|i: int, j: int| 0 <= i < j < s.len() ==> #[trigger] s[i].0 != #[trigger] s[j].0
}

pub proof fn lemma_pairs_map_has<K, V>(s: Seq<(K, V)>, k: K)
    ensures
        pairs_map(s).contains_key(k) <==> exists|i: int| 0 <= i < s.len() && #[trigger] s[i].0 == k,
    decreases s.len(),
{
    if s.len() > 0 {
        lemma_pairs_map_has(s.drop_last(), k);
        if pairs_map(s.drop_last()).contains_key(k) {
            let i = choose|i: int| 0 <= i < s.drop_last().len() && #[trigger] s.drop_last()[i].0 == k;
            assert(s[i].0 == k);
        }
        if exists|i: int| 0 <= i < s.len() && #[trigger] s[i].0 == k {
            let i = choose|i: int| 0 <= i < s.len() && #[trigger] s[i].0 == k;
            if i < s.len() - 1 {
                assert(s.drop_last()[i].0 == k);
            }
        }
    }
}

/// Replacing the value of a key that occurs once replaces it in the map.
pub proof fn lemma_pairs_map_update<K, V>(s: Seq<(K, V)>, j: int, v: V)
    requires
        keys_distinct(s),
        0 <= j < s.len(),
    ensures
        pairs_map(s.update(j, (s[j].0, v))) == pairs_map(s).insert(s[j].0, v),
    decreases s.len(),
{
    let t = s.update(j, (s[j].0, v));
    if j == s.len() - 1 {
        assert(t.drop_last() =~= s.drop_last());
        assert(pairs_map(t) =~= pairs_map(s).insert(s[j].0, v));
    } else {
        lemma_pairs_map_update(s.drop_last(), j, v);
        assert(t.drop_last() =~= s.drop_last().update(j, (s[j].0, v)));
        assert(s.last().0 != s[j].0);
        assert(pairs_map(t) =~= pairs_map(s).insert(s[j].0, v));
    }
}

/// The counts of a row list: each series label mapped to its hours, each
/// hour (read as a byte) to its count, a later row replacing an earlier
/// one of the same label and hour.
pub open spec fn counts_model(rows: Seq<MessageCount>) -> Map<Seq<char>, Map<u8, i64>>
    decreases rows.len(),
{
    if rows.len() == 0 {
        Map::empty()
    } else {
        let m = counts_model(rows.drop_last());
        let r = rows.last();
        let l = label_spec(r);
        let hours = if m.contains_key(l) {
            m[l]
        } else {
            Map::empty()
        };
        m.insert(l, hours.insert(r.hour_num as u8, r.count))
    }
}

/// The series as plain values: labels, each with its hour–count pairs.
pub open spec fn series_view(v: Seq<(String, Vec<(u8, i64)>)>) -> Seq<(Seq<char>, Seq<(u8, i64)>)> {
    v.map_values(|e: (String, Vec<(u8, i64)>)| (e.0@, e.1@))
}

/// The map the series give.
pub open spec fn series_map(v: Seq<(Seq<char>, Seq<(u8, i64)>)>) -> Map<Seq<char>, Map<u8, i64>> {
    pairs_map(v).map_values(|h: Seq<(u8, i64)>| pairs_map(h))
}

pub open spec fn series_wf(v: Seq<(Seq<char>, Seq<(u8, i64)>)>) -> bool {
    &&& keys_distinct(v)
    &&& forall|i: int| 0 <= i < v.len() ==> keys_distinct(#[trigger] v[i].1)
}

fn find_label(out: &Vec<(String, Vec<(u8, i64)>)>, label: &String) -> (r: Option<usize>)
    ensures
        match r {
            Some(j) => j < out.len() && out@[j as int].0@ == label@,
            None => forall|i: int| 0 <= i < out.len() ==> (#[trigger] out@[i]).0@ != label@,
        },
{
    let lv = crate::text::chars_of(label.as_str());
    let mut i: usize = 0;
    while i < out.len()
        invariant
            i <= out.len(),
            lv@ == label@,
            forall|k: int| 0 <= k < i ==> (#[trigger] out@[k]).0@ != label@,
        decreases out.len() - i,
    {
        let cv = crate::text::chars_of(out[i].0.as_str());
        if chars_eq(&cv, &lv) {
            return Some(i);
        }
        i = i + 1;
    }
    None
}

fn set_hour(hours: &mut Vec<(u8, i64)>, hour: u8, count: i64)
    requires
        keys_distinct(old(hours)@),
    ensures
        keys_distinct(final(hours)@),
        pairs_map(final(hours)@) == pairs_map(old(hours)@).insert(hour, count),
{
    let mut i: usize = 0;
    while i < hours.len()
        invariant
            i <= hours.len(),
            hours@ == old(hours)@,
            keys_distinct(hours@),
            forall|k: int| 0 <= k < i ==> (#[trigger] hours@[k]).0 != hour,
        decreases hours.len() - i,
    {
        if hours[i].0 == hour {
            proof {
                lemma_pairs_map_update(hours@, i as int, count);
            }
            hours.set(i, (hour, count));
            proof {
                assert(hours@ =~= old(hours)@.update(i as int, (hour, count)));
            }
            return;
        }
        i = i + 1;
    }
    hours.push((hour, count));
    proof {
        assert(hours@.drop_last() =~= old(hours)@);
    }
}

/// The hourly counts of each series, series in the order they first occur.
pub fn hourly_counts(rows: &Vec<MessageCount>) -> (r: Vec<(String, Vec<(u8, i64)>)>)
    ensures
        series_wf(series_view(r@)),
        series_map(series_view(r@)) == counts_model(rows@),
{
    let mut out: Vec<(String, Vec<(u8, i64)>)> = Vec::new();
    let mut i: usize = 0;
    proof {
        assert(series_map(series_view(out@)) =~= counts_model(rows@.take(0)));
    }
    while i < rows.len()
        invariant
            i <= rows.len(),
            series_wf(series_view(out@)),
            series_map(series_view(out@)) == counts_model(rows@.take(i as int)),
        decreases rows.len() - i,
    {
        let row = &rows[i];
        let label = series_label(row);
        let hour = #[verifier::truncate] (row.hour_num as u8);
        let ghost before = series_view(out@);
        proof {
            assert(rows@.take(i + 1).drop_last() =~= rows@.take(i as int));
            assert(rows@.take(i + 1).last() == *row);
        }
        match find_label(&out, &label) {
            Some(j) => {
                let mut entry = out.remove(j);
                let ghost e0 = entry.1@;
                proof {
                    assert(before[j as int] == (label@, e0));
                    assert(keys_distinct(before[j as int].1));
                    assert(keys_distinct(e0));
                }
                set_hour(&mut entry.1, hour, row.count);
                out.insert(j, entry);
                proof {
                    let after = series_view(out@);
                    assert(after =~= before.update(j as int, (label@, entry.1@)));
                    lemma_pairs_map_update(before, j as int, entry.1@);
                    lemma_pairs_map_has(before, label@);
                    assert(pairs_map(before)[label@] == e0) by {
                        lemma_pairs_map_update(before, j as int, e0);
                        assert(before.update(j as int, (before[j as int].0, e0)) =~= before);
                    }
                    assert forall|a: int, b: int| 0 <= a < b < after.len() implies #[trigger] after[a].0 != #[trigger] after[b].0 by {
                        assert(after[a].0 == before[a].0);
                        assert(after[b].0 == before[b].0);
                    }
                    assert forall|a: int| 0 <= a < after.len() implies keys_distinct(#[trigger] after[a].1) by {
                        if a != j {
                            assert(after[a] == before[a]);
                        }
                    }
                    assert(series_map(after) =~= counts_model(rows@.take(i + 1)));
                }
            },
            None => {
                let mut hours: Vec<(u8, i64)> = Vec::new();
                hours.push((hour, row.count));
                out.push((label, hours));
                proof {
                    let after = series_view(out@);
                    assert(after =~= before.push((label@, hours@)));
                    assert(after.drop_last() =~= before);
                    lemma_pairs_map_has(before, label@);
                    assert(!pairs_map(before).contains_key(label@)) by {
                        if pairs_map(before).contains_key(label@) {
                            let k = choose|k: int| 0 <= k < before.len() && #[trigger] before[k].0 == label@;
                            assert(out@[k].0@ == before[k].0);
                        }
                    }
                    assert(hours@.drop_last() =~= Seq::<(u8, i64)>::empty());
                    assert(pairs_map(Seq::<(u8, i64)>::empty()) == Map::<u8, i64>::empty());
                    assert(hours@.last() == (hour, row.count));
                    assert(pairs_map(hours@) == pairs_map(hours@.drop_last()).insert(hour, row.count));
                    assert(pairs_map(hours@) =~= Map::<u8, i64>::empty().insert(hour, row.count));
                    assert forall|a: int, b: int| 0 <= a < b < after.len() implies #[trigger] after[a].0 != #[trigger] after[b].0 by {
                        if b == after.len() - 1 {
                            assert(out@[a].0@ == after[a].0);
                        }
                    }
                    assert forall|a: int| 0 <= a < after.len() implies keys_distinct(#[trigger] after[a].1) by {
                        if a < before.len() {
                            assert(after[a] == before[a]);
                        }
                    }
                    assert(series_map(after) =~= counts_model(rows@.take(i + 1)));
                }
            },
        }
        i = i + 1;
    }
    proof {
        assert(rows@.take(rows.len() as int) =~= rows@);
    }
    out
}

} // verus!
