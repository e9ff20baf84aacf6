//! Selecting the birds to play: by catalog pack, by calendar day, or as an ad-hoc list of
//! bird ids, and the tokens that name each selection.

use vstd::prelude::*;
use crate::bird::{Bird, BirdPack};
use crate::date::{iso_date_days, iso_text, today, Date};
use crate::text::{
    chars_of, decimal, is_digit, join, joined, lemma_increasing_set_len, lemma_joined_not_a_number,
    lemma_joined_reads_back, lemma_parse_decimal, parse_list, parse_list_of, parse_u64,
    parse_u64_in, sorted_distinct, strictly_increasing, to_decimal,
};

verus! {

/// The separator of the ids in an ad-hoc list.
pub const LIST_DELIM: char = '.';

/// The fewest distinct birds that an ad-hoc list must name.
pub const MIN_LIST_BIRDS: usize = 10;

/// What a session plays.
#[derive(Debug)]
pub enum PackIdentifier {
    /// The catalog pack with this id.
    Id(u64),
    /// The catalog pack assigned to this day.
    Date(Date),
    /// These birds, by id.
    Birds(Vec<u64>),
}

/// The selection that a token names, if it names one: a `u64` names a catalog pack, a
/// `YYYY-MM-DD` date the pack of that day, and a list of ids separated by `.` that names at
/// least ten distinct birds names those birds, kept once each and in increasing order.
pub open spec fn named_by(q: Seq<char>, r: Option<PackIdentifier>) -> bool {
    match parse_u64(q) {
        Some(n) => r == Some(PackIdentifier::Id(n)),
        None => match iso_date_days(q) {
            Some(d) => r matches Some(PackIdentifier::Date(x)) && x@ == d,
            None => match parse_list(q, LIST_DELIM) {
                Some(ids) => if ids.to_set().len() >= MIN_LIST_BIRDS {
                    r matches Some(PackIdentifier::Birds(v)) && strictly_increasing(v@) && v@.to_set()
                        == ids.to_set()
                } else {
                    r is None
                },
                None => r is None,
            },
        },
    }
}

/// The selection that a token names, or else the pack of `today`.
pub open spec fn resolves_to(q: Seq<char>, today: Date, r: PackIdentifier) -> bool {
    ||| named_by(q, Some(r))
    ||| named_by(q, None) && r == PackIdentifier::Date(today)
}

/// The token that names a selection.
pub open spec fn token_text(p: PackIdentifier) -> Seq<char> {
    match p {
        PackIdentifier::Id(n) => decimal(n as nat),
        PackIdentifier::Date(d) => iso_text(d@ as i32),
        PackIdentifier::Birds(v) => joined(v@, seq![LIST_DELIM]),
    }
}

/// Whether two selections are the same kind with the same payload.
pub open spec fn same_selection(a: PackIdentifier, b: PackIdentifier) -> bool {
    match (a, b) {
        (PackIdentifier::Id(x), PackIdentifier::Id(y)) => x == y,
        (PackIdentifier::Date(x), PackIdentifier::Date(y)) => x@ == y@,
        (PackIdentifier::Birds(x), PackIdentifier::Birds(y)) => x@ == y@,
        _ => false,
    }
}

fn same_ids(a: &Vec<u64>, b: &Vec<u64>) -> (r: bool)
    ensures
        r == (a@ == b@),
{
    if a.len() != b.len() {
        return false;
    }
    let mut i: usize = 0;
    while i < a.len()
        invariant
            a.len() == b.len(),
            i <= a.len(),
            forall|k: int| 0 <= k < i ==> a@[k] == b@[k],
        decreases a.len() - i,
    {
        if a[i] != b[i] {
            return false;
        }
        i = i + 1;
    }
    assert(a@ =~= b@);
    true
}

impl PartialEq for PackIdentifier {
    fn eq(&self, other: &PackIdentifier) -> (r: bool) {
        match (self, other) {
            (PackIdentifier::Id(x), PackIdentifier::Id(y)) => *x == *y,
            (PackIdentifier::Date(x), PackIdentifier::Date(y)) => x.days() == y.days(),
            (PackIdentifier::Birds(x), PackIdentifier::Birds(y)) => same_ids(x, y),
            _ => false,
        }
    }
}

impl vstd::std_specs::cmp::PartialEqSpecImpl for PackIdentifier {
    open spec fn obeys_eq_spec() -> bool {
        true
    }

    open spec fn eq_spec(&self, other: &PackIdentifier) -> bool {
        same_selection(*self, *other)
    }
}

impl PackIdentifier {
    /// The selection that `query` names, if it names one.
    pub fn parse_query(query: &str) -> (r: Option<PackIdentifier>)
        ensures
            named_by(query@, r),
    {
        let cs = chars_of(query);
        assert(cs@.subrange(0, cs@.len() as int) =~= query@);
        match parse_u64_in(&cs, 0, cs.len()) {
            Some(n) => {
                return Some(PackIdentifier::Id(n));
            },
            None => {},
        }
        match Date::parse_iso(query) {
            Some(d) => {
                return Some(PackIdentifier::Date(d));
            },
            None => {},
        }
        match parse_list_of(&cs, LIST_DELIM) {
            Some(ids) => {
                let distinct = sorted_distinct(&ids);
                proof {
                    lemma_increasing_set_len(distinct@);
                }
                if distinct.len() >= MIN_LIST_BIRDS {
                    Some(PackIdentifier::Birds(distinct))
                } else {
                    None
                }
            },
            None => None,
        }
    }

    /// The selection that `query` names, or else the pack of `today`.
    pub fn resolve(query: &str, today: Date) -> (r: PackIdentifier)
        ensures
            resolves_to(query@, today, r),
    {
        match PackIdentifier::parse_query(query) {
            Some(p) => p,
            None => PackIdentifier::Date(today),
        }
    }

    /// The selection that `query` names, or else the pack of the current day.
    pub fn from_query(query: &str) -> (r: PackIdentifier)
        ensures
            exists|t: Date| resolves_to(query@, t, r),
    {
        let day = today();
        let r = PackIdentifier::resolve(query, day);
        assert(resolves_to(query@, day, r));
        r
    }

    /// The token that names this selection.
    pub fn to_token(&self) -> (r: String)
        ensures
            r@ == token_text(*self),
    {
        match self {
            PackIdentifier::Id(n) => to_decimal(*n),
            PackIdentifier::Date(d) => d.to_iso(),
            PackIdentifier::Birds(v) => {
                proof {
                    reveal_strlit(".");
                }
                assert("."@ =~= seq![LIST_DELIM]);
                join(v.as_slice(), ".")
            },
        }
    }
}

/// The token of a catalog pack's id resolves back to that id.
pub proof fn lemma_id_token_round_trip(n: u64, today: Date)
    ensures
        resolves_to(token_text(PackIdentifier::Id(n)), today, PackIdentifier::Id(n)),
{
    lemma_parse_decimal(n);
}

/// The token of an ad-hoc list of at least ten birds, kept once each and in increasing order,
/// resolves back to that list, provided the calendar parser does not read it as a date.
pub proof fn lemma_list_token_round_trip(ids: Vec<u64>, today: Date)
    requires
        strictly_increasing(ids@),
        ids.len() >= MIN_LIST_BIRDS,
    ensures
        iso_date_days(token_text(PackIdentifier::Birds(ids))) is None ==> resolves_to(
            token_text(PackIdentifier::Birds(ids)),
            today,
            PackIdentifier::Birds(ids),
        ),
{
    assert(!is_digit(LIST_DELIM));
    lemma_joined_reads_back(ids@, LIST_DELIM);
    lemma_joined_not_a_number(ids@, LIST_DELIM);
    lemma_increasing_set_len(ids@);
}

impl<'a> From<&'a str> for PackIdentifier {
    /// The selection that `query` names, or else the pack of the current day.
    fn from(query: &'a str) -> (r: PackIdentifier)
        ensures
            exists|t: Date| resolves_to(query@, t, r),
    {
        PackIdentifier::from_query(query)
    }
}

impl<'a> vstd::std_specs::convert::FromSpecImpl<&'a str> for PackIdentifier {
    /// The result depends on the current day, so no spec function gives it.
    open spec fn obeys_from_spec() -> bool {
        false
    }

    open spec fn from_spec(query: &'a str) -> PackIdentifier {
        arbitrary()
    }
}

impl Default for PackIdentifier {
    /// The pack of the current day.
    fn default() -> (r: PackIdentifier)
        ensures
            r matches PackIdentifier::Date(_),
    {
        PackIdentifier::Date(today())
    }
}

/// The birds of a play session, with what selected them. The birds always match the
/// selection.
#[derive(Debug)]
pub struct Pack {
    /// What selected the birds.
    pub id: PackIdentifier,
    /// The birds to play.
    pub birds: Vec<Bird>,
    /// The id of the catalog pack, unless the birds are an ad-hoc list.
    pub birdpack_id: Option<u64>,
}

/// Whether two packs hold the same birds: the same catalog pack, however selected, or else
/// the same selection.
pub open spec fn same_pack(a: Pack, b: Pack) -> bool {
    match (a.birdpack_id, b.birdpack_id) {
        (Some(x), Some(y)) => x == y,
        _ => same_selection(a.id, b.id),
    }
}

impl PartialEq for Pack {
    fn eq(&self, other: &Pack) -> (r: bool) {
        match (self.birdpack_id, other.birdpack_id) {
            (Some(x), Some(y)) => x == y,
            _ => self.id == other.id,
        }
    }
}

impl vstd::std_specs::cmp::PartialEqSpecImpl for Pack {
    open spec fn obeys_eq_spec() -> bool {
        true
    }

    open spec fn eq_spec(&self, other: &Pack) -> bool {
        same_pack(*self, *other)
    }
}

/// The pack that a catalog pack makes: selected by its day if it has one, else by its id.
pub open spec fn pack_of(p: BirdPack) -> Pack {
    Pack {
        id: match p.day {
            Some(d) => PackIdentifier::Date(d),
            None => PackIdentifier::Id(p.id),
        },
        birds: p.birds,
        birdpack_id: Some(p.id),
    }
}

impl From<BirdPack> for Pack {
    fn from(pack: BirdPack) -> (r: Pack) {
        let id = match pack.day {
            Some(day) => PackIdentifier::Date(day),
            None => PackIdentifier::Id(pack.id),
        };
        Pack { id, birds: pack.birds, birdpack_id: Some(pack.id) }
    }
}

impl vstd::std_specs::convert::FromSpecImpl<BirdPack> for Pack {
    open spec fn obeys_from_spec() -> bool {
        true
    }

    open spec fn from_spec(p: BirdPack) -> Pack {
        pack_of(p)
    }
}

} // verus!
