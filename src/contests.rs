//! A player's best farming contest for each crop, and how it is shown.
use crate::text::{int_text, nat_text, push_int};
use thousands::Separable;
use vstd::prelude::*;

verus! {

/// One contest a player took part in.
pub struct Contest {
    pub crop: String,
    pub timestamp: i64,
    pub collected: i64,
}

/// The best contest of a crop.
pub struct BestContest {
    pub crop: String,
    pub collected: i64,
    pub timestamp: i64,
}

/// Contest `i` is the best of its crop among the first `n`: none of that
/// crop collected more, and none before it collected as much.
pub open spec fn best_among(cs: Seq<Contest>, n: int, i: int) -> bool {
    &&& 0 <= i < n
    &&& forall|j: int|
        0 <= j < n && (#[trigger] cs[j]).crop@ == cs[i].crop@ ==> cs[j].collected <= cs[i].collected
            && (j < i ==> cs[j].collected < cs[i].collected)
}

/// An entry is the best contest of its crop among `cs`.
pub open spec fn is_best_entry(cs: Seq<Contest>, b: BestContest) -> bool {
    exists|i: int| {
        &&& best_among(cs, cs.len() as int, i)
        &&& b.crop@ == (#[trigger] cs[i]).crop@
        &&& b.collected == cs[i].collected
        &&& b.timestamp == cs[i].timestamp
    }
}

/// Some entry is for this crop.
pub open spec fn has_crop(r: Seq<BestContest>, crop: Seq<char>) -> bool {
    exists|k: int| 0 <= k < r.len() && (#[trigger] r[k]).crop@ == crop
}

/// The best contest of each crop among `cs`, as `best_contests` gives them.
pub open spec fn best_of_each_crop(cs: Seq<Contest>, r: Seq<BestContest>) -> bool {
    &&& forall|a: int, b: int| 0 <= a < b < r.len() ==> r[a].crop@ != r[b].crop@
    &&& forall|k: int| 0 <= k < r.len() ==> is_best_entry(cs, #[trigger] r[k])
    &&& forall|i: int| 0 <= i < cs.len() ==> has_crop(r, (#[trigger] cs[i]).crop@)
}

/// For each crop, the contest that collected most, the first of them where
/// several did; one entry per crop, in the order the crops first appear.
pub fn best_contests(contests: &Vec<Contest>) -> (r: Vec<BestContest>)
    ensures
        best_of_each_crop(contests@, r@),
{
    let ghost cs = contests@;
    let mut out: Vec<BestContest> = Vec::new();
    let ghost mut idx: Seq<int> = Seq::empty();
    let mut n: usize = 0;
    while n < contests.len()
        invariant
            cs == contests@,
            n <= cs.len(),
            idx.len() == out@.len(),
            forall|a: int, b: int| 0 <= a < b < out@.len() ==> out@[a].crop@ != out@[b].crop@,
            forall|k: int| 0 <= k < out@.len() ==> {
                &&& best_among(cs, n as int, #[trigger] idx[k])
                &&& out@[k].crop@ == cs[idx[k]].crop@
                &&& out@[k].collected == cs[idx[k]].collected
                &&& out@[k].timestamp == cs[idx[k]].timestamp
            },
            forall|i: int| 0 <= i < n ==> exists|k: int| 0 <= k < out@.len() && (#[trigger] out@[k]).crop@ == (#[trigger] cs[i]).crop@,
        decreases cs.len() - n,
    {
        let c = &contests[n];
        let k = find_crop(&out, &c.crop);
        let ghost old_out = out@;
        let ghost old_idx = idx;
        if k == out.len() {
            out.push(BestContest { crop: c.crop.clone(), collected: c.collected, timestamp: c.timestamp });
            proof {
                idx = idx.push(n as int);
                assert forall|k2: int| 0 <= k2 < out@.len() implies {
                    &&& best_among(cs, n + 1, #[trigger] idx[k2])
                    &&& out@[k2].crop@ == cs[idx[k2]].crop@
                    &&& out@[k2].collected == cs[idx[k2]].collected
                    &&& out@[k2].timestamp == cs[idx[k2]].timestamp
                } by {
                    if k2 < old_out.len() {
                        assert(out@[k2] == old_out[k2]);
                        assert(best_among(cs, n as int, old_idx[k2]));
                        assert(cs[old_idx[k2]].crop@ != cs[n as int].crop@);
                    } else {
                        assert forall|j: int| 0 <= j < n + 1 && (#[trigger] cs[j]).crop@ == cs[n as int].crop@
                            implies cs[j].collected <= cs[n as int].collected && (j < n ==> cs[j].collected < cs[n as int].collected) by {
                            if j < n {
                                let a = choose|a: int| 0 <= a < old_out.len() && (#[trigger] old_out[a]).crop@ == cs[j].crop@;
                                assert(old_out[a].crop@ != c.crop@);
                            }
                        }
                    }
                }
                assert forall|i: int| 0 <= i < n + 1 implies exists|k2: int| 0 <= k2 < out@.len() && (#[trigger] out@[k2]).crop@ == (#[trigger] cs[i]).crop@ by {
                    if i < n {
                        let a = choose|a: int| 0 <= a < old_out.len() && (#[trigger] old_out[a]).crop@ == cs[i].crop@;
                        assert(out@[a] == old_out[a]);
                    } else {
                        assert(out@[out@.len() - 1].crop@ == cs[i].crop@);
                    }
                }
            }
        } else {
            let better = c.collected > out[k].collected;
            if better {
                out.set(k, BestContest { crop: c.crop.clone(), collected: c.collected, timestamp: c.timestamp });
                proof {
                    idx = idx.update(k as int, n as int);
                }
            }
            proof {
                assert(old_out[k as int].crop@ == c.crop@);
                assert(best_among(cs, n as int, old_idx[k as int]));
                assert forall|k2: int| 0 <= k2 < out@.len() implies {
                    &&& best_among(cs, n + 1, #[trigger] idx[k2])
                    &&& out@[k2].crop@ == cs[idx[k2]].crop@
                    &&& out@[k2].collected == cs[idx[k2]].collected
                    &&& out@[k2].timestamp == cs[idx[k2]].timestamp
                } by {
                    assert(best_among(cs, n as int, old_idx[k2]));
                    if k2 != k {
                        assert(out@[k2] == old_out[k2]);
                        assert(cs[old_idx[k2]].crop@ != cs[n as int].crop@);
                    } else if better {
                        assert forall|j: int| 0 <= j < n + 1 && (#[trigger] cs[j]).crop@ == cs[n as int].crop@
                            implies cs[j].collected <= cs[n as int].collected && (j < n ==> cs[j].collected < cs[n as int].collected) by {
                            if j < n {
                                assert(cs[j].crop@ == cs[old_idx[k as int]].crop@);
                            }
                        }
                    }
                }
                assert forall|i: int| 0 <= i < n + 1 implies exists|k2: int| 0 <= k2 < out@.len() && (#[trigger] out@[k2]).crop@ == (#[trigger] cs[i]).crop@ by {
                    if i < n {
                        let a = choose|a: int| 0 <= a < old_out.len() && (#[trigger] old_out[a]).crop@ == cs[i].crop@;
                        assert(out@[a].crop@ == old_out[a].crop@);
                    } else {
                        assert(out@[k as int].crop@ == cs[i].crop@);
                    }
                }
            }
        }
        n += 1;
    }
    proof {
        assert forall|k: int| 0 <= k < out@.len() implies is_best_entry(contests@, #[trigger] out@[k]) by {
            let i = idx[k];
            assert(best_among(cs, n as int, i));
            assert(out@[k].crop@ == cs[i].crop@);
        }
        assert forall|i: int| 0 <= i < contests@.len() implies has_crop(out@, (#[trigger] contests@[i]).crop@) by {
            assert(i < n);
            let k = choose|k: int| 0 <= k < out@.len() && (#[trigger] out@[k]).crop@ == (#[trigger] cs[i]).crop@;
            assert(out@[k].crop@ == contests@[i].crop@);
        }
    }
    out
}

fn find_crop(out: &Vec<BestContest>, crop: &String) -> (r: usize)
    ensures
        r <= out@.len(),
        r < out@.len() ==> out@[r as int].crop@ == crop@,
        r == out@.len() ==> forall|a: int| 0 <= a < out@.len() ==> (#[trigger] out@[a]).crop@ != crop@,
{
    let mut k: usize = 0;
    while k < out.len()
        invariant
            k <= out@.len(),
            forall|a: int| 0 <= a < k ==> (#[trigger] out@[a]).crop@ != crop@,
        decreases out@.len() - k,
    {
        if out[k].crop == *crop {
            return k;
        }
        k += 1;
    }
    k
}

/// The decimal digits of a natural number, a comma between each group of
/// three from the right.
pub open spec fn grouped_text(n: nat) -> Seq<char>
    decreases n,
{
    if n < 1000 {
        nat_text(n)
    } else {
        grouped_text(n / 1000) + seq![','] + three_digits((n % 1000) as nat)
    }
}

/// Three decimal digits, with leading zeros.
pub open spec fn three_digits(n: nat) -> Seq<char> {
    seq![
        crate::text::digit_char((n / 100) as int),
        crate::text::digit_char(((n / 10) % 10) as int),
        crate::text::digit_char((n % 10) as int),
    ]
}

/// The decimal text of an integer with a comma every three digits from the
/// right, and a leading `-` when it is negative.
pub open spec fn comma_text(n: int) -> Seq<char> {
    if n < 0 {
        seq!['-'] + grouped_text((-n) as nat)
    } else {
        grouped_text(n as nat)
    }
}

/// Relies on thousands' `Separable::separate_with_commas`, which inserts a
/// comma every three digits from the right into the decimal text of a number,
/// leaving its sign before them.
#[verifier::external_body]
fn with_commas(n: i64) -> (r: String)
    ensures
        r@ == comma_text(n as int),
{
    n.separate_with_commas()
}

/// The icon of a crop: a custom chat emoji for each farmed crop, none for
/// anything else.
pub open spec fn crop_emoji_text(crop: Seq<char>) -> Seq<char> {
    if crop == "Cactus"@ {
        "<:cactus:1301456780035100723>"@
    } else if crop == "Carrot"@ {
        "<:carrot:1301456796896202794>"@
    } else if crop == "Cocoa Beans"@ {
        "<:cocoa:1301456811794366535>"@
    } else if crop == "Melon"@ {
        "<:melon:1301456827807961108>"@
    } else if crop == "Mushroom"@ {
        "<:mushroom:1301456848372629566>"@
    } else if crop == "Nether Wart"@ {
        "<:netherwart:1301456868715270164>"@
    } else if crop == "Potato"@ {
        "<:potato:1301456882006753301>"@
    } else if crop == "Pumpkin"@ {
        "<:pumpkin:1301456896376569856>"@
    } else if crop == "Sugar Cane"@ {
        "<:sugarcane:1301456914063818753>"@
    } else if crop == "Wheat"@ {
        "<:wheat:1301456927900958762>"@
    } else {
        ""@
    }
}

/// The icon shown for a crop, or none.
pub fn crop_emoji(crop: &str) -> (r: &'static str)
    ensures
        r@ == crop_emoji_text(crop@),
{
    if same_text(crop, "Cactus") {
        "<:cactus:1301456780035100723>"
    } else if same_text(crop, "Carrot") {
        "<:carrot:1301456796896202794>"
    } else if same_text(crop, "Cocoa Beans") {
        "<:cocoa:1301456811794366535>"
    } else if same_text(crop, "Melon") {
        "<:melon:1301456827807961108>"
    } else if same_text(crop, "Mushroom") {
        "<:mushroom:1301456848372629566>"
    } else if same_text(crop, "Nether Wart") {
        "<:netherwart:1301456868715270164>"
    } else if same_text(crop, "Potato") {
        "<:potato:1301456882006753301>"
    } else if same_text(crop, "Pumpkin") {
        "<:pumpkin:1301456896376569856>"
    } else if same_text(crop, "Sugar Cane") {
        "<:sugarcane:1301456914063818753>"
    } else if same_text(crop, "Wheat") {
        "<:wheat:1301456927900958762>"
    } else {
        ""
    }
}

/// Whether two texts are equal.
pub fn same_text(a: &str, b: &str) -> (r: bool)
    ensures
        r == (a@ == b@),
{
    let n = a.unicode_len();
    if n != b.unicode_len() {
        return false;
    }
    let mut i: usize = 0;
    while i < n
        invariant
            n == a@.len() == b@.len(),
            i <= n,
            forall|j: int| 0 <= j < i ==> a@[j] == b@[j],
        decreases n - i,
    {
        if a.get_char(i) != b.get_char(i) {
            return false;
        }
        i += 1;
    }
    assert(a@ =~= b@);
    true
}

/// The line shown for a crop's best contest:
/// ``"<icon> <crop>: [`<collected>`](https://elitebot.dev/contest/<timestamp>)\n "``,
/// the amount with a comma every three digits.
pub fn contest_line(best: &BestContest) -> (r: String)
    ensures
        r@ == crop_emoji_text(best.crop@) + seq![' '] + best.crop@ + ": [`"@ + comma_text(best.collected as int)
            + "`](https://elitebot.dev/contest/"@ + int_text(best.timestamp as int) + ")\n "@,
{
    let mut s = String::from_str(crop_emoji(best.crop.as_str()));
    s.append(" ");
    s.append(best.crop.as_str());
    s.append(": [`");
    let amount = with_commas(best.collected);
    s.append(amount.as_str());
    s.append("`](https://elitebot.dev/contest/");
    push_int(&mut s, best.timestamp as i128);
    s.append(")\n ");
    proof { reveal_strlit(" "); }
    s
}

} // verus!
