//! Tile types: thirty-four ranked kinds that match only themselves, four
//! flowers and four seasons that match within their family, and the fixed
//! pool of one hundred and forty-four tiles drawn from during a shuffle.

use vstd::prelude::*;

verus! {

/// An enumeration whose variants can be listed at run time.
pub trait IterableEnum: Sized {
    /// The variants, in their declared order.
    spec fn variant_list() -> Seq<Self>;

    /// Returns the variants, in their declared order.
    fn iter() -> (r: Vec<Self>)
        ensures
            r@ == Self::variant_list(),
    ;
}

/// One face a tile can bear.
#[derive(Clone, Copy, Debug, PartialEq, Eq, Hash, Structural)]
pub enum TileType {
    BallOne,
    BallTwo,
    BallThree,
    BallFour,
    BallFive,
    BallSix,
    BallSeven,
    BallEight,
    BallNine,
    BambooOne,
    BambooTwo,
    BambooThree,
    BambooFour,
    BambooFive,
    BambooSix,
    BambooSeven,
    BambooEight,
    BambooNine,
    CharacterOne,
    CharacterTwo,
    CharacterThree,
    CharacterFour,
    CharacterFive,
    CharacterSix,
    CharacterSeven,
    CharacterEight,
    CharacterNine,
    WindNorth,
    WindEast,
    WindSouth,
    WindWest,
    DragonRed,
    DragonGreen,
    DragonWhite,
    FlowerPlum,
    FlowerOrchid,
    FlowerBamboo,
    FlowerChrysanthemum,
    SeasonSpring,
    SeasonSummer,
    SeasonAutumn,
    SeasonWinter,
}

/// The four flower faces form one matching family.
pub open spec fn is_flower(t: TileType) -> bool {
    match t {
        TileType::FlowerPlum | TileType::FlowerOrchid | TileType::FlowerBamboo | TileType::FlowerChrysanthemum => true,
        _ => false,
    }
}

/// The four season faces form one matching family.
pub open spec fn is_season(t: TileType) -> bool {
    match t {
        TileType::SeasonSpring | TileType::SeasonSummer | TileType::SeasonAutumn | TileType::SeasonWinter => true,
        _ => false,
    }
}

/// Two faces match when they are equal, or both flowers, or both seasons.
/// This is an equivalence relation on faces.
pub open spec fn matches_spec(a: TileType, b: TileType) -> bool {
    if is_flower(a) {
        is_flower(b)
    } else if is_season(a) {
        is_season(b)
    } else {
        a == b
    }
}

/// How many tiles of this face the full pool holds: four of each ranked
/// face, one of each flower and season.
pub open spec fn max_allowed_spec(t: TileType) -> nat {
    if is_flower(t) || is_season(t) {
        1
    } else {
        4
    }
}

/// The position of a face in the declared variant order.
pub open spec fn type_index(t: TileType) -> int {
    match t {
        TileType::BallOne => 0,
        TileType::BallTwo => 1,
        TileType::BallThree => 2,
        TileType::BallFour => 3,
        TileType::BallFive => 4,
        TileType::BallSix => 5,
        TileType::BallSeven => 6,
        TileType::BallEight => 7,
        TileType::BallNine => 8,
        TileType::BambooOne => 9,
        TileType::BambooTwo => 10,
        TileType::BambooThree => 11,
        TileType::BambooFour => 12,
        TileType::BambooFive => 13,
        TileType::BambooSix => 14,
        TileType::BambooSeven => 15,
        TileType::BambooEight => 16,
        TileType::BambooNine => 17,
        TileType::CharacterOne => 18,
        TileType::CharacterTwo => 19,
        TileType::CharacterThree => 20,
        TileType::CharacterFour => 21,
        TileType::CharacterFive => 22,
        TileType::CharacterSix => 23,
        TileType::CharacterSeven => 24,
        TileType::CharacterEight => 25,
        TileType::CharacterNine => 26,
        TileType::WindNorth => 27,
        TileType::WindEast => 28,
        TileType::WindSouth => 29,
        TileType::WindWest => 30,
        TileType::DragonRed => 31,
        TileType::DragonGreen => 32,
        TileType::DragonWhite => 33,
        TileType::FlowerPlum => 34,
        TileType::FlowerOrchid => 35,
        TileType::FlowerBamboo => 36,
        TileType::FlowerChrysanthemum => 37,
        TileType::SeasonSpring => 38,
        TileType::SeasonSummer => 39,
        TileType::SeasonAutumn => 40,
        TileType::SeasonWinter => 41,
    }
}

/// How many entries of `s` equal `t`.
pub open spec fn count_of(s: Seq<TileType>, t: TileType) -> nat
    decreases s.len(),
{
    if s.len() == 0 {
        0
    } else {
        count_of(s.drop_last(), t) + if s.last() == t {
            1nat
        } else {
            0nat
        }
    }
}

/// Two sequences hold every face equally often.
pub open spec fn same_counts(a: Seq<TileType>, b: Seq<TileType>) -> bool {
    forall|t: TileType| count_of(a, t) == count_of(b, t)
}

/// Consecutive entries at even offsets match, so the pool can be consumed
/// as matching pairs.
pub open spec fn pool_pairs_matched(s: Seq<TileType>) -> bool {
    s.len() % 2 == 0 && forall|j: int|
        0 <= j && j + 1 < s.len() && j % 2 == 0 ==> matches_spec(#[trigger] s[j], s[j + 1])
}

impl TileType {
    /// How many tiles of this face the full pool holds.
    pub fn max_allowed(&self) -> (r: u8)
        ensures
            r as nat == max_allowed_spec(*self),
    {
        match *self {
            TileType::FlowerPlum | TileType::FlowerOrchid | TileType::FlowerBamboo | TileType::FlowerChrysanthemum
            | TileType::SeasonSpring | TileType::SeasonSummer | TileType::SeasonAutumn | TileType::SeasonWinter => 1,
            _ => 4,
        }
    }

    /// Whether this face matches `other`.
    pub fn matches(&self, other: &TileType) -> (r: bool)
        ensures
            r == matches_spec(*self, *other),
    {
        match *self {
            TileType::FlowerPlum | TileType::FlowerOrchid | TileType::FlowerBamboo | TileType::FlowerChrysanthemum => {
                match *other {
                    TileType::FlowerPlum | TileType::FlowerOrchid | TileType::FlowerBamboo | TileType::FlowerChrysanthemum => true,
                    _ => false,
                }
            },
            TileType::SeasonSpring | TileType::SeasonSummer | TileType::SeasonAutumn | TileType::SeasonWinter => {
                match *other {
                    TileType::SeasonSpring | TileType::SeasonSummer | TileType::SeasonAutumn | TileType::SeasonWinter => true,
                    _ => false,
                }
            },
            _ => *self == *other,
        }
    }

    /// A two-character code for the face, for plain-text boards.
    pub fn to_str(&self) -> &'static str {
        match *self {
            TileType::BallOne => "o1",
            TileType::BallTwo => "o2",
            TileType::BallThree => "o3",
            TileType::BallFour => "o4",
            TileType::BallFive => "o5",
            TileType::BallSix => "o6",
            TileType::BallSeven => "o7",
            TileType::BallEight => "o8",
            TileType::BallNine => "o9",
            TileType::BambooOne => "b1",
            TileType::BambooTwo => "b2",
            TileType::BambooThree => "b3",
            TileType::BambooFour => "b4",
            TileType::BambooFive => "b5",
            TileType::BambooSix => "b6",
            TileType::BambooSeven => "b7",
            TileType::BambooEight => "b8",
            TileType::BambooNine => "b9",
            TileType::CharacterOne => "c1",
            TileType::CharacterTwo => "c2",
            TileType::CharacterThree => "c3",
            TileType::CharacterFour => "c4",
            TileType::CharacterFive => "c5",
            TileType::CharacterSix => "c6",
            TileType::CharacterSeven => "c7",
            TileType::CharacterEight => "c8",
            TileType::CharacterNine => "c9",
            TileType::WindNorth => "wN",
            TileType::WindEast => "wE",
            TileType::WindSouth => "wS",
            TileType::WindWest => "wW",
            TileType::DragonRed => "dR",
            TileType::DragonGreen => "dG",
            TileType::DragonWhite => "dW",
            TileType::FlowerPlum => "fP",
            TileType::FlowerOrchid => "fO",
            TileType::FlowerBamboo => "fB",
            TileType::FlowerChrysanthemum => "fC",
            TileType::SeasonSpring => "sL",
            TileType::SeasonSummer => "sS",
            TileType::SeasonAutumn => "sA",
            TileType::SeasonWinter => "sW",
        }
    }
}

impl IterableEnum for TileType {
    open spec fn variant_list() -> Seq<TileType> {
        seq![
            TileType::BallOne,
            TileType::BallTwo,
            TileType::BallThree,
            TileType::BallFour,
            TileType::BallFive,
            TileType::BallSix,
            TileType::BallSeven,
            TileType::BallEight,
            TileType::BallNine,
            TileType::BambooOne,
            TileType::BambooTwo,
            TileType::BambooThree,
            TileType::BambooFour,
            TileType::BambooFive,
            TileType::BambooSix,
            TileType::BambooSeven,
            TileType::BambooEight,
            TileType::BambooNine,
            TileType::CharacterOne,
            TileType::CharacterTwo,
            TileType::CharacterThree,
            TileType::CharacterFour,
            TileType::CharacterFive,
            TileType::CharacterSix,
            TileType::CharacterSeven,
            TileType::CharacterEight,
            TileType::CharacterNine,
            TileType::WindNorth,
            TileType::WindEast,
            TileType::WindSouth,
            TileType::WindWest,
            TileType::DragonRed,
            TileType::DragonGreen,
            TileType::DragonWhite,
            TileType::FlowerPlum,
            TileType::FlowerOrchid,
            TileType::FlowerBamboo,
            TileType::FlowerChrysanthemum,
            TileType::SeasonSpring,
            TileType::SeasonSummer,
            TileType::SeasonAutumn,
            TileType::SeasonWinter,
        ]
    }

    fn iter() -> (r: Vec<TileType>) {
        let mut r: Vec<TileType> = Vec::new();
        r.push(TileType::BallOne);
        r.push(TileType::BallTwo);
        r.push(TileType::BallThree);
        r.push(TileType::BallFour);
        r.push(TileType::BallFive);
        r.push(TileType::BallSix);
        r.push(TileType::BallSeven);
        r.push(TileType::BallEight);
        r.push(TileType::BallNine);
        r.push(TileType::BambooOne);
        r.push(TileType::BambooTwo);
        r.push(TileType::BambooThree);
        r.push(TileType::BambooFour);
        r.push(TileType::BambooFive);
        r.push(TileType::BambooSix);
        r.push(TileType::BambooSeven);
        r.push(TileType::BambooEight);
        r.push(TileType::BambooNine);
        r.push(TileType::CharacterOne);
        r.push(TileType::CharacterTwo);
        r.push(TileType::CharacterThree);
        r.push(TileType::CharacterFour);
        r.push(TileType::CharacterFive);
        r.push(TileType::CharacterSix);
        r.push(TileType::CharacterSeven);
        r.push(TileType::CharacterEight);
        r.push(TileType::CharacterNine);
        r.push(TileType::WindNorth);
        r.push(TileType::WindEast);
        r.push(TileType::WindSouth);
        r.push(TileType::WindWest);
        r.push(TileType::DragonRed);
        r.push(TileType::DragonGreen);
        r.push(TileType::DragonWhite);
        r.push(TileType::FlowerPlum);
        r.push(TileType::FlowerOrchid);
        r.push(TileType::FlowerBamboo);
        r.push(TileType::FlowerChrysanthemum);
        r.push(TileType::SeasonSpring);
        r.push(TileType::SeasonSummer);
        r.push(TileType::SeasonAutumn);
        r.push(TileType::SeasonWinter);
        proof {
            assert(r@ =~= Self::variant_list());
        }
        r
    }
}

/// Matching is reflexive.
pub proof fn lemma_matches_reflexive(t: TileType)
    ensures
        matches_spec(t, t),
{
}

/// Matching is symmetric.
pub proof fn lemma_matches_symmetric(a: TileType, b: TileType)
    ensures
        matches_spec(a, b) == matches_spec(b, a),
{
}

/// Matching is transitive.
pub proof fn lemma_matches_transitive(a: TileType, b: TileType, c: TileType)
    requires
        matches_spec(a, b),
        matches_spec(b, c),
    ensures
        matches_spec(a, c),
{
}

/// Every face sits at its index in the variant list.
pub proof fn lemma_variant_at_index(t: TileType)
    ensures
        TileType::variant_list().len() == 42,
        0 <= type_index(t) < 42,
        TileType::variant_list()[type_index(t)] == t,
{
}

/// Appending one entry raises its count by one and leaves the others.
pub proof fn lemma_count_push(s: Seq<TileType>, x: TileType, t: TileType)
    ensures
        count_of(s.push(x), t) == count_of(s, t) + if x == t {
            1nat
        } else {
            0nat
        },
{
    assert(s.push(x).drop_last() =~= s);
    assert(s.push(x).last() == x);
}

/// Extending a prefix by one entry adjusts its counts in the same way.
pub proof fn lemma_count_take_step(s: Seq<TileType>, i: int, t: TileType)
    requires
        0 <= i < s.len(),
    ensures
        count_of(s.take(i + 1), t) == count_of(s.take(i), t) + if s[i] == t {
            1nat
        } else {
            0nat
        },
{
    assert(s.take(i + 1).drop_last() =~= s.take(i));
    assert(s.take(i + 1).last() == s[i]);
}

/// A face is counted at all exactly when it occurs somewhere.
pub proof fn lemma_count_contains(s: Seq<TileType>, t: TileType)
    ensures
        count_of(s, t) > 0 <==> exists|i: int| 0 <= i < s.len() && s[i] == t,
    decreases s.len(),
{
    if s.len() > 0 {
        lemma_count_contains(s.drop_last(), t);
        if s.last() == t {
            assert(s[s.len() - 1] == t);
        } else if count_of(s, t) > 0 {
            let i = choose|i: int| 0 <= i < s.drop_last().len() && s.drop_last()[i] == t;
            assert(s[i] == t);
        } else {
            assert forall|i: int| 0 <= i < s.len() implies s[i] != t by {
                if i < s.len() - 1 {
                    assert(s.drop_last()[i] == s[i]);
                }
            }
        }
    }
}


/// Each variant sits at its own index and nowhere else.
pub proof fn lemma_index_of_variant(i: int)
    requires
        0 <= i < 42,
    ensures
        type_index(TileType::variant_list()[i]) == i,
{
    assert(type_index(TileType::variant_list()[0]) == 0);
    assert(type_index(TileType::variant_list()[1]) == 1);
    assert(type_index(TileType::variant_list()[2]) == 2);
    assert(type_index(TileType::variant_list()[3]) == 3);
    assert(type_index(TileType::variant_list()[4]) == 4);
    assert(type_index(TileType::variant_list()[5]) == 5);
    assert(type_index(TileType::variant_list()[6]) == 6);
    assert(type_index(TileType::variant_list()[7]) == 7);
    assert(type_index(TileType::variant_list()[8]) == 8);
    assert(type_index(TileType::variant_list()[9]) == 9);
    assert(type_index(TileType::variant_list()[10]) == 10);
    assert(type_index(TileType::variant_list()[11]) == 11);
    assert(type_index(TileType::variant_list()[12]) == 12);
    assert(type_index(TileType::variant_list()[13]) == 13);
    assert(type_index(TileType::variant_list()[14]) == 14);
    assert(type_index(TileType::variant_list()[15]) == 15);
    assert(type_index(TileType::variant_list()[16]) == 16);
    assert(type_index(TileType::variant_list()[17]) == 17);
    assert(type_index(TileType::variant_list()[18]) == 18);
    assert(type_index(TileType::variant_list()[19]) == 19);
    assert(type_index(TileType::variant_list()[20]) == 20);
    assert(type_index(TileType::variant_list()[21]) == 21);
    assert(type_index(TileType::variant_list()[22]) == 22);
    assert(type_index(TileType::variant_list()[23]) == 23);
    assert(type_index(TileType::variant_list()[24]) == 24);
    assert(type_index(TileType::variant_list()[25]) == 25);
    assert(type_index(TileType::variant_list()[26]) == 26);
    assert(type_index(TileType::variant_list()[27]) == 27);
    assert(type_index(TileType::variant_list()[28]) == 28);
    assert(type_index(TileType::variant_list()[29]) == 29);
    assert(type_index(TileType::variant_list()[30]) == 30);
    assert(type_index(TileType::variant_list()[31]) == 31);
    assert(type_index(TileType::variant_list()[32]) == 32);
    assert(type_index(TileType::variant_list()[33]) == 33);
    assert(type_index(TileType::variant_list()[34]) == 34);
    assert(type_index(TileType::variant_list()[35]) == 35);
    assert(type_index(TileType::variant_list()[36]) == 36);
    assert(type_index(TileType::variant_list()[37]) == 37);
    assert(type_index(TileType::variant_list()[38]) == 38);
    assert(type_index(TileType::variant_list()[39]) == 39);
    assert(type_index(TileType::variant_list()[40]) == 40);
    assert(type_index(TileType::variant_list()[41]) == 41);
}

/// The full tile pool: four of each ranked face, one of each flower and
/// each season, one hundred and forty-four tiles in all, laid out so that
/// every entry at an even offset matches its successor.
pub fn get_tile_types() -> (r: Vec<TileType>)
    ensures
        r@.len() == 144,
        forall|t: TileType| count_of(r@, t) == max_allowed_spec(t),
        pool_pairs_matched(r@),
{
    let ts = TileType::iter();
    let mut pool: Vec<TileType> = Vec::new();
    for idx in 0..42usize
        invariant
            ts@ == TileType::variant_list(),
            pool@.len() == if idx <= 34 {
                4 * idx as int
            } else {
                136 + (idx - 34)
            },
            forall|t: TileType| count_of(pool@, t) == if type_index(t) < idx {
                max_allowed_spec(t)
            } else {
                0nat
            },
            forall|j: int|
                0 <= j && j + 1 < pool@.len() && j % 2 == 0 ==> matches_spec(
                    #[trigger] pool@[j],
                    pool@[j + 1],
                ),
            pool@.len() % 2 == 1 ==> matches_spec(pool@[pool@.len() - 1], ts@[idx as int]),
    {
        let t = ts[idx];
        let c = t.max_allowed();
        proof {
            lemma_index_of_variant(idx as int);
        }
        let ghost len0 = pool@.len() as int;
        for j in 0..c
            invariant
                t == TileType::variant_list()[idx as int],
                type_index(t) == idx as int,
                idx < 42,
                c as nat == max_allowed_spec(t),
                pool@.len() == len0 + j as int,
                forall|u: TileType| count_of(pool@, u) == (if type_index(u) < idx as int {
                    max_allowed_spec(u)
                } else {
                    0nat
                }) + if u == t {
                    j as nat
                } else {
                    0nat
                },
                forall|k: int|
                    0 <= k && k + 1 < pool@.len() && k % 2 == 0 ==> matches_spec(
                        #[trigger] pool@[k],
                        pool@[k + 1],
                    ),
                pool@.len() % 2 == 1 ==> matches_spec(pool@[pool@.len() - 1], t),
        {
            let ghost before = pool@;
            pool.push(t);
            proof {
                assert forall|u: TileType|
                    count_of(pool@, u) == count_of(before, u) + if t == u {
                        1nat
                    } else {
                        0nat
                    } by {
                    lemma_count_push(before, t, u);
                }
            }
        }
    }
    pool
}

/// Counts how many tiles of face `t` the vector holds.
pub fn count_occurrences(v: &Vec<TileType>, t: TileType) -> (r: usize)
    ensures
        r as nat == count_of(v@, t),
{
    let mut cnt: usize = 0;
    let n = v.len();
    for i in 0..n
        invariant
            n == v@.len(),
            cnt <= i,
            cnt as nat == count_of(v@.take(i as int), t),
    {
        proof {
            lemma_count_take_step(v@, i as int, t);
        }
        if v[i] == t {
            cnt = cnt + 1;
        }
    }
    proof {
        assert(v@.take(n as int) =~= v@);
    }
    cnt
}

/// Decides whether two vectors hold every face equally often.
pub fn counts_agree(a: &Vec<TileType>, b: &Vec<TileType>) -> (r: bool)
    ensures
        r == same_counts(a@, b@),
{
    let na = a.len();
    for i in 0..na
        invariant
            na == a@.len(),
            forall|m: int|
                0 <= m < i ==> count_of(a@, #[trigger] a@[m]) == count_of(b@, a@[m]),
    {
        let t = a[i];
        if count_occurrences(a, t) != count_occurrences(b, t) {
            proof {
                assert(!same_counts(a@, b@));
            }
            return false;
        }
    }
    let nb = b.len();
    for i in 0..nb
        invariant
            nb == b@.len(),
            forall|m: int|
                0 <= m < a@.len() ==> count_of(a@, #[trigger] a@[m]) == count_of(b@, a@[m]),
            forall|m: int|
                0 <= m < i ==> count_of(a@, #[trigger] b@[m]) == count_of(b@, b@[m]),
    {
        let t = b[i];
        if count_occurrences(a, t) != count_occurrences(b, t) {
            proof {
                assert(!same_counts(a@, b@));
            }
            return false;
        }
    }
    proof {
        assert forall|t: TileType| count_of(a@, t) == count_of(b@, t) by {
            lemma_count_contains(a@, t);
            lemma_count_contains(b@, t);
            if count_of(a@, t) > 0 {
                let m = choose|m: int| 0 <= m < a@.len() && a@[m] == t;
                assert(count_of(a@, a@[m]) == count_of(b@, a@[m]));
            } else if count_of(b@, t) > 0 {
                let m = choose|m: int| 0 <= m < b@.len() && b@[m] == t;
                assert(count_of(a@, b@[m]) == count_of(b@, b@[m]));
            }
        }
    }
    true
}

} // verus!
