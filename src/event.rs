use vstd::prelude::*;

verus! {

/// Number of characters in a generated event id.
pub const ID_LEN: usize = 21;

/// A scheduling event as a client submits it.
#[derive(Debug)]
pub struct Event {
    pub organizer: String,
    pub name: String,
    pub date: String,
}

impl Event {
    pub fn new(organizer: String, name: String, date: String) -> (r: Event)
        ensures
            r.organizer@ == organizer@,
            r.name@ == name@,
            r.date@ == date@,
    {
        Event { organizer, name, date }
    }
}

/// Field that marks a slot as taken.
pub open spec fn organizer_field() -> Seq<char> {
    seq!['o', 'r', 'g', 'a', 'n', 'i', 'z', 'e', 'r']
}

/// Field that holds the event's name.
pub open spec fn event_field() -> Seq<char> {
    seq!['e', 'v', 'e', 'n', 't']
}

pub open spec fn date_field() -> Seq<char> {
    seq!['d', 'a', 't', 'e']
}

pub open spec fn id_field() -> Seq<char> {
    seq!['i', 'd']
}

/// A character of the URL-safe alphabet that ids are drawn from.
pub open spec fn is_id_char(c: char) -> bool {
    c == '_' || c == '-' || ('0' <= c && c <= '9') || ('a' <= c && c <= 'z') || ('A' <= c
        && c <= 'Z')
}

/// A well-formed event id: `ID_LEN` characters of the URL-safe alphabet.
pub open spec fn is_event_id(s: Seq<char>) -> bool {
    &&& s.len() == ID_LEN
    &&& forall|i: int| 0 <= i < s.len() ==> is_id_char(#[trigger] s[i])
}

/// The field/value pairs of a stored record, in the order they are written.
pub open spec fn record_pairs(
    organizer: Seq<char>,
    name: Seq<char>,
    date: Seq<char>,
    id: Seq<char>,
) -> Seq<(Seq<char>, Seq<char>)> {
    seq![
        (organizer_field(), organizer),
        (event_field(), name),
        (date_field(), date),
        (id_field(), id),
    ]
}

/// A stored record as a mapping from field to value.
pub open spec fn record_map(
    organizer: Seq<char>,
    name: Seq<char>,
    date: Seq<char>,
    id: Seq<char>,
) -> Map<Seq<char>, Seq<char>> {
    map![
        organizer_field() => organizer,
        event_field() => name,
        date_field() => date,
        id_field() => id,
    ]
}

/// The mapping that writing `pairs` in order leaves in an empty record: a later
/// pair for the same field wins.
pub open spec fn pairs_map(pairs: Seq<(Seq<char>, Seq<char>)>) -> Map<Seq<char>, Seq<char>>
    decreases pairs.len(),
{
    if pairs.len() == 0 {
        Map::empty()
    } else {
        pairs_map(pairs.drop_last()).insert(pairs.last().0, pairs.last().1)
    }
}

/// Writing the pairs of a record leaves exactly its mapping.
pub proof fn lemma_record_pairs_map(
    organizer: Seq<char>,
    name: Seq<char>,
    date: Seq<char>,
    id: Seq<char>,
)
    ensures
        pairs_map(record_pairs(organizer, name, date, id)) == record_map(organizer, name, date, id),
{
    let p = record_pairs(organizer, name, date, id);
    reveal_with_fuel(pairs_map, 5);
    assert(organizer_field().len() == 9);
    assert(event_field().len() == 5);
    assert(date_field().len() == 4);
    assert(id_field().len() == 2);
    assert(p.drop_last().drop_last().drop_last().drop_last() =~= Seq::empty());
    assert(p.drop_last().drop_last().drop_last() =~= seq![(organizer_field(), organizer)]);
    assert(p.drop_last().drop_last() =~= seq![(organizer_field(), organizer), (event_field(), name)]);
    assert(p.drop_last() =~= seq![
        (organizer_field(), organizer),
        (event_field(), name),
        (date_field(), date),
    ]);
    assert(pairs_map(p) =~= record_map(organizer, name, date, id));
}

pub open spec fn pairs_view(v: Seq<(String, String)>) -> Seq<(Seq<char>, Seq<char>)> {
    v.map_values(|p: (String, String)| (p.0@, p.1@))
}

/// The pairs written for `event` under the id `id`.
pub fn record_fields(event: &Event, id: String) -> (r: Vec<(String, String)>)
    ensures
        pairs_view(r@) == record_pairs(event.organizer@, event.name@, event.date@, id@),
{
    proof {
        reveal_strlit("organizer");
        reveal_strlit("event");
        reveal_strlit("date");
        reveal_strlit("id");
    }
    let mut r: Vec<(String, String)> = Vec::new();
    r.push((String::from_str("organizer"), event.organizer.clone()));
    r.push((String::from_str("event"), event.name.clone()));
    r.push((String::from_str("date"), event.date.clone()));
    r.push((String::from_str("id"), id));
    assert("organizer"@ =~= organizer_field());
    assert("event"@ =~= event_field());
    assert("date"@ =~= date_field());
    assert("id"@ =~= id_field());
    assert(pairs_view(r@) =~= record_pairs(event.organizer@, event.name@, event.date@, id@));
    r
}

/// Relies on nanoid::format with nanoid's default random source and its
/// URL-safe alphabet: it returns `size` characters, each taken from that
/// alphabet. Which ones is left to chance.
#[verifier::external_body]
pub(crate) fn fresh_id() -> (r: String)
    ensures
        is_event_id(r@),
{
    nanoid::format(nanoid::rngs::default, &nanoid::alphabet::SAFE, ID_LEN)
}

} // verus!
