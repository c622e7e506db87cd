use vstd::prelude::*;

use crate::event::Event;

verus! {

/// The decimal digit character of `d`, for `d < 10`.
pub open spec fn digit_char(d: nat) -> char {
    if d == 0 { '0' }
    else if d == 1 { '1' }
    else if d == 2 { '2' }
    else if d == 3 { '3' }
    else if d == 4 { '4' }
    else if d == 5 { '5' }
    else if d == 6 { '6' }
    else if d == 7 { '7' }
    else if d == 8 { '8' }
    else { '9' }
}

/// The decimal notation of `n`, without sign or leading zeros.
pub open spec fn decimal(n: nat) -> Seq<char>
    decreases n,
{
    if n < 10 {
        seq![digit_char(n)]
    } else {
        decimal(n / 10).push(digit_char(n % 10))
    }
}

/// The store key of slot `n`: `event:` followed by `n` in decimal.
pub open spec fn slot_key_text(n: nat) -> Seq<char> {
    seq!['e', 'v', 'e', 'n', 't', ':'] + decimal(n)
}

fn digit_str(d: u64) -> (r: &'static str)
    requires
        d < 10,
    ensures
        r@ == seq![digit_char(d as nat)],
{
    proof {
        reveal_strlit("0");
        reveal_strlit("1");
        reveal_strlit("2");
        reveal_strlit("3");
        reveal_strlit("4");
        reveal_strlit("5");
        reveal_strlit("6");
        reveal_strlit("7");
        reveal_strlit("8");
        reveal_strlit("9");
    }
    if d == 0 { "0" }
    else if d == 1 { "1" }
    else if d == 2 { "2" }
    else if d == 3 { "3" }
    else if d == 4 { "4" }
    else if d == 5 { "5" }
    else if d == 6 { "6" }
    else if d == 7 { "7" }
    else if d == 8 { "8" }
    else { "9" }
}

fn push_decimal(s: &mut String, n: u64)
    ensures
        final(s)@ == old(s)@ + decimal(n as nat),
    decreases n,
{
    if n >= 10 {
        push_decimal(s, n / 10);
    }
    s.append(digit_str(n % 10));
    proof {
        if n >= 10 {
            assert(old(s)@ + decimal(n as nat) =~= (old(s)@ + decimal((n / 10) as nat)) + seq![
                digit_char((n % 10) as nat),
            ]);
        } else {
            assert(decimal(n as nat) == seq![digit_char(n as nat)]);
        }
    }
}

/// The store key of slot `n`, `event:<n>`.
pub fn slot_key(n: u64) -> (r: String)
    ensures
        r@ == slot_key_text(n as nat),
{
    let mut s = String::new();
    s.append("event:");
    proof {
        reveal_strlit("event:");
    }
    push_decimal(&mut s, n);
    s
}

/// The quoted and escaped form that `Debug` gives a string.
pub uninterp spec fn debug_of(s: Seq<char>) -> Seq<char>;

/// Relies on std's `Debug` for `str`, through `format!("{:?}", ..)`: the
/// result depends on the characters of `s` alone.
#[verifier::external_body]
pub(crate) fn debug_text(s: &str) -> (r: String)
    ensures
        r@ == debug_of(s@),
{
    format!("{:?}", s)
}

/// `items` separated by `, `.
pub open spec fn joined(items: Seq<Seq<char>>) -> Seq<char>
    decreases items.len(),
{
    if items.len() == 0 {
        Seq::empty()
    } else if items.len() == 1 {
        items[0]
    } else {
        joined(items.drop_last()) + seq![',', ' '] + items.last()
    }
}

/// `items` separated by `, ` between square brackets.
pub open spec fn bracketed(items: Seq<Seq<char>>) -> Seq<char> {
    seq!['['] + joined(items) + seq![']']
}

pub open spec fn strings_view(v: Seq<String>) -> Seq<Seq<char>> {
    v.map_values(|s: String| s@)
}

/// The text of a listing: each record's strings quoted and bracketed, and the
/// records bracketed in turn.
pub open spec fn listing_of(records: Seq<Seq<Seq<char>>>) -> Seq<char> {
    bracketed(records.map_values(|r: Seq<Seq<char>>| bracketed(r.map_values(|s: Seq<char>| debug_of(s)))))
}

/// The confirmation sent back for a created event, given the quoted forms of
/// its organizer, name and date.
pub open spec fn confirmation_of(organizer: Seq<char>, name: Seq<char>, date: Seq<char>) -> Seq<char> {
    seq!['O', 'r', 'g', 'a', 'n', 'i', 'z', 'e', 'r', ':', ' '] + organizer + seq![
        ' ',
        'E',
        'v',
        'e',
        'n',
        't',
        ':',
        ' ',
    ] + name + seq![' ', 'D', 'a', 't', 'e', ' '] + date
}

/// Joins already quoted pieces into the confirmation text.
pub fn compose_confirmation(organizer: &str, name: &str, date: &str) -> (r: String)
    ensures
        r@ == confirmation_of(organizer@, name@, date@),
{
    proof {
        reveal_strlit("Organizer: ");
        reveal_strlit(" Event: ");
        reveal_strlit(" Date ");
    }
    let mut s = String::from_str("Organizer: ");
    s.append(organizer);
    s.append(" Event: ");
    s.append(name);
    s.append(" Date ");
    s.append(date);
    assert(s@ =~= confirmation_of(organizer@, name@, date@));
    s
}

/// The confirmation sent back for a created event: its organizer, name and
/// date, each quoted.
pub fn confirmation(event: &Event) -> (r: String)
    ensures
        r@ == confirmation_of(debug_of(event.organizer@), debug_of(event.name@), debug_of(event.date@)),
{
    let o = debug_text(event.organizer.as_str());
    let n = debug_text(event.name.as_str());
    let d = debug_text(event.date.as_str());
    compose_confirmation(o.as_str(), n.as_str(), d.as_str())
}

/// Puts `items` between square brackets, separated by `, `.
pub fn bracket_list(items: &Vec<String>) -> (r: String)
    ensures
        r@ == bracketed(strings_view(items@)),
{
    proof {
        reveal_strlit("[");
        reveal_strlit("]");
        reveal_strlit(", ");
    }
    let mut s = String::from_str("[");
    let mut i: usize = 0;
    while i < items.len()
        invariant
            0 <= i <= items@.len(),
            s@ == seq!['['] + joined(strings_view(items@).take(i as int)),
        decreases items@.len() - i,
    {
        let ghost before = s@;
        if i > 0 {
            s.append(", ");
        }
        s.append(items[i].as_str());
        proof {
            let v = strings_view(items@);
            assert(v.take(i + 1).drop_last() =~= v.take(i as int));
            assert(v[i as int] == items@[i as int]@);
            assert(v.take(i + 1).last() == v[i as int]);
            reveal_strlit(", ");
            assert(", "@ =~= seq![',', ' ']);
            if i == 0 {
                assert(v.take(1) =~= seq![v[0]]);
                assert(s@ =~= before + v[0]);
            } else {
                assert(s@ =~= before + seq![',', ' '] + v[i as int]);
            }
            assert(s@ =~= seq!['['] + joined(v.take(i + 1)));
        }
        i = i + 1;
    }
    s.append("]");
    assert(strings_view(items@).take(items@.len() as int) =~= strings_view(items@));
    assert(s@ =~= bracketed(strings_view(items@)));
    s
}

/// The text of a listing of `records`, each a list of strings.
pub fn listing_text(records: &Vec<Vec<String>>) -> (r: String)
    ensures
        r@ == listing_of(records@.map_values(|r: Vec<String>| strings_view(r@))),
{
    let mut rendered: Vec<String> = Vec::new();
    let mut i: usize = 0;
    while i < records.len()
        invariant
            0 <= i <= records@.len(),
            rendered@.len() == i,
            forall|j: int|
                0 <= j < i ==> (#[trigger] rendered@[j])@ == bracketed(
                    strings_view(records@[j]@).map_values(|s: Seq<char>| debug_of(s)),
                ),
        decreases records@.len() - i,
    {
        let rec = &records[i];
        let mut quoted: Vec<String> = Vec::new();
        let mut j: usize = 0;
        while j < rec.len()
            invariant
                0 <= j <= rec@.len(),
                quoted@.len() == j,
                forall|k: int| 0 <= k < j ==> (#[trigger] quoted@[k])@ == debug_of(rec@[k]@),
            decreases rec@.len() - j,
        {
            quoted.push(debug_text(rec[j].as_str()));
            j = j + 1;
        }
        assert(strings_view(quoted@) =~= strings_view(rec@).map_values(|s: Seq<char>| debug_of(s)));
        rendered.push(bracket_list(&quoted));
        i = i + 1;
    }
    let r = bracket_list(&rendered);
    assert(strings_view(rendered@) =~= records@.map_values(|r: Vec<String>| strings_view(r@)).map_values(
        |r: Seq<Seq<char>>| bracketed(r.map_values(|s: Seq<char>| debug_of(s))),
    ));
    r
}

/// Port used when none is configured, or the configured one does not parse.
pub const DEFAULT_PORT: u16 = 8080;

pub open spec fn is_digit(c: char) -> bool {
    '0' <= c && c <= '9'
}

/// The number that a string of decimal digits denotes.
pub open spec fn digits_value(d: Seq<char>) -> nat
    decreases d.len(),
{
    if d.len() == 0 {
        0
    } else {
        digits_value(d.drop_last()) * 10 + ((d.last() as u32) - ('0' as u32)) as nat
    }
}

/// The digits of a port setting: an optional leading `+` is dropped.
pub open spec fn port_digits(s: Seq<char>) -> Seq<char> {
    if s.len() > 0 && s[0] == '+' {
        s.skip(1)
    } else {
        s
    }
}

/// The port a setting names, if it is a decimal number that fits in 16 bits.
pub open spec fn port_value(s: Seq<char>) -> Option<u16> {
    let d = port_digits(s);
    if d.len() > 0 && (forall|i: int| 0 <= i < d.len() ==> is_digit(#[trigger] d[i]))
        && digits_value(d) <= u16::MAX {
        Some(digits_value(d) as u16)
    } else {
        None
    }
}

proof fn lemma_digits_value_grows(d: Seq<char>, i: int)
    requires
        0 <= i <= d.len(),
        forall|k: int| 0 <= k < d.len() ==> is_digit(#[trigger] d[k]),
    ensures
        digits_value(d.take(i)) <= digits_value(d),
    decreases d.len() - i,
{
    if i < d.len() {
        lemma_digits_value_grows(d, i + 1);
        assert(d.take(i + 1).drop_last() =~= d.take(i));
        assert(is_digit(d[i]));
    } else {
        assert(d.take(i) =~= d);
    }
}

/// Parses a port setting: decimal digits, optionally after a `+`, for a number
/// that fits in 16 bits.
pub fn parse_port(s: &str) -> (r: Option<u16>)
    ensures
        r == port_value(s@),
{
    let n = s.unicode_len();
    let mut start: usize = 0;
    if n > 0 && s.get_char(0) == '+' {
        start = 1;
    }
    let ghost d = port_digits(s@);
    assert(d =~= s@.skip(start as int));
    if start >= n {
        return None;
    }
    let mut v: u32 = 0;
    let mut i: usize = start;
    while i < n
        invariant
            start <= i <= n,
            n == s@.len(),
            d == s@.skip(start as int),
            d == port_digits(s@),
            v as nat == digits_value(d.take(i - start)),
            v <= u16::MAX,
            forall|k: int| 0 <= k < i - start ==> is_digit(#[trigger] d[k]),
        decreases n - i,
    {
        let c = s.get_char(i);
        assert(c == d[i - start]);
        if !('0' <= c && c <= '9') {
            assert(!is_digit(d[i - start]));
            return None;
        }
        assert(d.take(i - start + 1).drop_last() =~= d.take(i - start));
        assert(d.take(i - start + 1).last() == c);
        v = v * 10 + ((c as u32) - ('0' as u32));
        assert(v as nat == digits_value(d.take(i - start + 1)));
        if v > 65535 {
            proof {
                if forall|k: int| 0 <= k < d.len() ==> is_digit(#[trigger] d[k]) {
                    lemma_digits_value_grows(d, i - start + 1);
                }
            }
            return None;
        }
        i = i + 1;
    }
    assert(d.take(n - start) =~= d);
    Some(v as u16)
}

/// The port to listen on, given the configured setting if there is one.
pub fn port_from(setting: Option<String>) -> (r: u16)
    ensures
        r == match setting {
            Some(s) => match port_value(s@) {
                Some(p) => p,
                None => DEFAULT_PORT,
            },
            None => DEFAULT_PORT,
        },
{
    match setting {
        Some(s) => match parse_port(s.as_str()) {
            Some(p) => p,
            None => DEFAULT_PORT,
        },
        None => DEFAULT_PORT,
    }
}

} // verus!
