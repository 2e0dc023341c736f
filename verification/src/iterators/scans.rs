//! Scan techniques and the scan-list expression.

use vstd::prelude::*;
use vstd::string::*;

use crate::iterators::{LoopIterator, ParseError};
use crate::text::{
    chars_of, find, index_of, is_word, lemma_split_step, split, to_upper, trim, trimmed,
};

verus! {

/// The shape of probe sent to a port. The variants are declared in their
/// stable total order.
#[derive(Clone, Copy, Debug, PartialEq, Eq, PartialOrd, Ord, Hash, Structural)]
pub enum Scan {
    SYN,
    NULL,
    ACK,
    FIN,
    XMAS,
    UDP,
}

impl Scan {
    /// Position of the technique in the enumeration, `0..=5`.
    pub open spec fn ord(self) -> int {
        match self {
            Scan::SYN => 0,
            Scan::NULL => 1,
            Scan::ACK => 2,
            Scan::FIN => 3,
            Scan::XMAS => 4,
            Scan::UDP => 5,
        }
    }

    /// The technique at a position of the enumeration.
    pub open spec fn at(i: int) -> Scan {
        if i == 0 {
            Scan::SYN
        } else if i == 1 {
            Scan::NULL
        } else if i == 2 {
            Scan::ACK
        } else if i == 3 {
            Scan::FIN
        } else if i == 4 {
            Scan::XMAS
        } else {
            Scan::UDP
        }
    }

    /// The TCP flag mask of the technique; UDP has none.
    pub open spec fn flag_mask(self) -> Option<u16> {
        match self {
            Scan::SYN => Some(0b00_0010u16),
            Scan::NULL => Some(0b00_0000u16),
            Scan::ACK => Some(0b01_0000u16),
            Scan::FIN => Some(0b00_0001u16),
            Scan::XMAS => Some(0b10_1001u16),
            Scan::UDP => None,
        }
    }

    /// The upper-case name of the technique.
    pub open spec fn name(self) -> Seq<char> {
        match self {
            Scan::SYN => seq!['S', 'Y', 'N'],
            Scan::NULL => seq!['N', 'U', 'L', 'L'],
            Scan::ACK => seq!['A', 'C', 'K'],
            Scan::FIN => seq!['F', 'I', 'N'],
            Scan::XMAS => seq!['X', 'M', 'A', 'S'],
            Scan::UDP => seq!['U', 'D', 'P'],
        }
    }

    /// Position of the technique in the enumeration.
    pub fn index(self) -> (i: u16)
        ensures
            i == self.ord(),
            i < 6,
    {
        match self {
            Scan::SYN => 0,
            Scan::NULL => 1,
            Scan::ACK => 2,
            Scan::FIN => 3,
            Scan::XMAS => 4,
            Scan::UDP => 5,
        }
    }

    /// The technique at position `i`, if `i` is below six.
    pub fn from_index(i: u16) -> (scan: Option<Scan>)
        ensures
            i < 6 ==> scan == Some(Scan::at(i as int)),
            i >= 6 ==> scan is None,
    {
        match i {
            0 => Some(Scan::SYN),
            1 => Some(Scan::NULL),
            2 => Some(Scan::ACK),
            3 => Some(Scan::FIN),
            4 => Some(Scan::XMAS),
            5 => Some(Scan::UDP),
            _ => None,
        }
    }

    /// The TCP flag mask that a probe of this technique carries. UDP is told
    /// apart by the IP protocol field and has no mask.
    pub fn flags(self) -> (mask: Option<u16>)
        ensures
            mask == self.flag_mask(),
    {
        match self {
            Scan::SYN => Some(0b00_0010),
            Scan::NULL => Some(0b00_0000),
            Scan::ACK => Some(0b01_0000),
            Scan::FIN => Some(0b00_0001),
            Scan::XMAS => Some(0b10_1001),
            Scan::UDP => None,
        }
    }
}

impl TryFrom<Scan> for u16 {
    type Error = ();

    /// The TCP flag mask of a technique, or an error for UDP.
    fn try_from(scan: Scan) -> (mask: Result<u16, ()>)
        ensures
            mask == match scan.flag_mask() {
                Some(m) => Ok::<u16, ()>(m),
                None => Err::<u16, ()>(()),
            },
    {
        match scan.flags() {
            Some(m) => Ok(m),
            None => Err(()),
        }
    }
}

impl vstd::std_specs::convert::TryFromSpecImpl<Scan> for u16 {
    open spec fn obeys_try_from_spec() -> bool {
        true
    }

    open spec fn try_from_spec(scan: Scan) -> Result<u16, ()> {
        match scan.flag_mask() {
            Some(m) => Ok(m),
            None => Err(()),
        }
    }
}

impl vstd::std_specs::convert::FromSpecImpl<Scan> for String {
    open spec fn obeys_from_spec() -> bool {
        false
    }

    open spec fn from_spec(scan: Scan) -> String {
        arbitrary()
    }
}

impl From<Scan> for String {
    /// The upper-case name of a technique.
    fn from(scan: Scan) -> (name: String)
        ensures
            name@ == scan.name(),
    {
        proof {
            reveal_strlit("SYN");
            reveal_strlit("NULL");
            reveal_strlit("ACK");
            reveal_strlit("FIN");
            reveal_strlit("XMAS");
            reveal_strlit("UDP");
        }
        let name = match scan {
            Scan::SYN => String::from_str("SYN"),
            Scan::NULL => String::from_str("NULL"),
            Scan::ACK => String::from_str("ACK"),
            Scan::FIN => String::from_str("FIN"),
            Scan::XMAS => String::from_str("XMAS"),
            Scan::UDP => String::from_str("UDP"),
        };
        assert(name@ =~= scan.name());
        name
    }
}

/// The technique that an upper-case name denotes.
pub open spec fn scan_named(name: Seq<char>) -> Option<Scan> {
    if name == Scan::SYN.name() {
        Some(Scan::SYN)
    } else if name == Scan::NULL.name() {
        Some(Scan::NULL)
    } else if name == Scan::ACK.name() {
        Some(Scan::ACK)
    } else if name == Scan::FIN.name() {
        Some(Scan::FIN)
    } else if name == Scan::XMAS.name() {
        Some(Scan::XMAS)
    } else if name == Scan::UDP.name() {
        Some(Scan::UDP)
    } else {
        None
    }
}

/// The name in one item of a scan list: the item without the white space
/// around it, in upper case.
pub open spec fn token(item: Seq<char>) -> Seq<char> {
    to_upper(trimmed(item))
}

/// The techniques that the items of a scan list name, in the order of the
/// items. An item that is empty but for white space is passed over; the first
/// item that names no technique is the error.
pub open spec fn listed(items: Seq<Seq<char>>) -> Result<Seq<Scan>, int>
    decreases items.len(),
{
    if items.len() == 0 {
        Ok(Seq::empty())
    } else {
        match listed(items.drop_last()) {
            Err(bad) => Err(bad),
            Ok(scans) => if token(items.last()).len() == 0 {
                Ok(scans)
            } else {
                match scan_named(token(items.last())) {
                    Some(scan) => Ok(scans.push(scan)),
                    None => Err(items.len() - 1),
                }
            },
        }
    }
}

/// `scan` alone if it is among `scans`, else nothing.
pub open spec fn chosen(scans: Seq<Scan>, scan: Scan) -> Seq<Scan> {
    if scans.contains(scan) {
        seq![scan]
    } else {
        Seq::empty()
    }
}

/// The techniques among `scans`, each once, in the order of the enumeration.
pub open spec fn normalized(scans: Seq<Scan>) -> Seq<Scan> {
    chosen(scans, Scan::SYN) + chosen(scans, Scan::NULL) + chosen(scans, Scan::ACK) + chosen(
        scans,
        Scan::FIN,
    ) + chosen(scans, Scan::XMAS) + chosen(scans, Scan::UDP)
}

/// Each technique stands before those that follow it in the enumeration.
pub open spec fn in_order(scans: Seq<Scan>) -> bool {
    forall|i: int, j: int| 0 <= i < j < scans.len() ==> scans[i].ord() < scans[j].ord()
}

/// An error among the first items of a list is the error of the whole list.
pub proof fn lemma_listed_error(items: Seq<Seq<char>>, n: int)
    requires
        0 <= n <= items.len(),
        listed(items.take(n)) is Err,
    ensures
        listed(items) == listed(items.take(n)),
    decreases items.len() - n,
{
    if n < items.len() {
        assert(items.take(n + 1).drop_last() =~= items.take(n));
        lemma_listed_error(items, n + 1);
    } else {
        assert(items.take(n) =~= items);
    }
}

/// The techniques picked up to a position of the enumeration are sorted, and
/// they are the techniques of the list that stand before that position.
pub proof fn lemma_partly_normalized(scans: Seq<Scan>, upto: int)
    requires
        0 <= upto <= 6,
    ensures
        in_order(partly_normalized(scans, upto)),
        forall|i: int|
            0 <= i < partly_normalized(scans, upto).len() ==> (#[trigger] partly_normalized(
                scans,
                upto,
            )[i]).ord() < upto,
        forall|scan: Scan|
            partly_normalized(scans, upto).contains(scan) <==> scans.contains(scan) && scan.ord()
                < upto,
    decreases upto,
{
    if upto > 0 {
        lemma_partly_normalized(scans, upto - 1);
        let shorter = partly_normalized(scans, upto - 1);
        let longer = partly_normalized(scans, upto);
        let next = Scan::at(upto - 1);
        assert(next.ord() == upto - 1);
        assert(longer == shorter + chosen(scans, next));
        assert forall|scan: Scan|
            longer.contains(scan) <==> scans.contains(scan) && scan.ord() < upto by {
            if longer.contains(scan) {
                let i = choose|i: int| 0 <= i < longer.len() && longer[i] == scan;
                if i < shorter.len() {
                    assert(shorter[i] == scan);
                    assert(shorter.contains(scan));
                } else {
                    assert(scan == next);
                }
            }
            if scans.contains(scan) && scan.ord() < upto {
                if scan.ord() < upto - 1 {
                    assert(shorter.contains(scan));
                    let i = choose|i: int| 0 <= i < shorter.len() && shorter[i] == scan;
                    assert(longer[i] == scan);
                } else {
                    assert(Scan::at(scan.ord()) == scan);
                    assert(longer[shorter.len() as int] == scan);
                }
            }
        }
    }
}

/// The normalized list is sorted, holds no technique twice, and holds the
/// techniques of the list it was made from.
pub proof fn lemma_normalized(scans: Seq<Scan>)
    ensures
        in_order(normalized(scans)),
        normalized(scans).no_duplicates(),
        forall|scan: Scan| normalized(scans).contains(scan) <==> scans.contains(scan),
{
    lemma_normalized_in_steps(scans);
    lemma_partly_normalized(scans, 6);
    let n = normalized(scans);
    assert forall|i: int, j: int| 0 <= i < n.len() && 0 <= j < n.len() && i != j implies n[i]
        != n[j] by {
        if i < j {
            assert(n[i].ord() < n[j].ord());
        } else {
            assert(n[j].ord() < n[i].ord());
        }
    }
}

/// The normalized list is what is picked over the whole enumeration.
pub proof fn lemma_normalized_in_steps(scans: Seq<Scan>)
    ensures
        partly_normalized(scans, 6) == normalized(scans),
{
    assert(Scan::at(0) == Scan::SYN && Scan::at(1) == Scan::NULL && Scan::at(2) == Scan::ACK
        && Scan::at(3) == Scan::FIN && Scan::at(4) == Scan::XMAS && Scan::at(5) == Scan::UDP);
    assert(partly_normalized(scans, 0) =~= Seq::<Scan>::empty());
    assert(partly_normalized(scans, 1) =~= chosen(scans, Scan::SYN));
    assert(partly_normalized(scans, 2) =~= partly_normalized(scans, 1) + chosen(scans, Scan::NULL));
    assert(partly_normalized(scans, 3) =~= partly_normalized(scans, 2) + chosen(scans, Scan::ACK));
    assert(partly_normalized(scans, 4) =~= partly_normalized(scans, 3) + chosen(scans, Scan::FIN));
    assert(partly_normalized(scans, 5) =~= partly_normalized(scans, 4) + chosen(scans, Scan::XMAS));
    assert(partly_normalized(scans, 6) =~= partly_normalized(scans, 5) + chosen(scans, Scan::UDP));
    assert(partly_normalized(scans, 6) =~= normalized(scans));
}

impl Scan {
    /// The technique that an upper-case name denotes.
    pub fn try_from(name: &str) -> (scan: Result<Scan, ()>)
        ensures
            scan == match scan_named(name@) {
                Some(s) => Ok::<Scan, ()>(s),
                None => Err::<Scan, ()>(()),
            },
    {
        let chars = chars_of(name);
        let n = chars.len();
        assert(chars@.subrange(0, n as int) =~= chars@);
        match recognise(&chars, 0, n, false) {
            Some(s) => Ok(s),
            None => Err(()),
        }
    }
}

fn same_chars(s: &Vec<char>, from: usize, to: usize, word: &Vec<char>) -> (same: bool)
    requires
        from <= to <= s@.len(),
    ensures
        same == (s@.subrange(from as int, to as int) == word@),
{
    if to - from != word.len() {
        return false;
    }
    let mut i: usize = 0;
    while i < word.len()
        invariant
            from <= to <= s@.len(),
            to - from == word@.len(),
            i <= word@.len(),
            forall|k: int| 0 <= k < i ==> s@[from + k] == word@[k],
        decreases word@.len() - i,
    {
        if s[from + i] != word[i] {
            assert(s@.subrange(from as int, to as int)[i as int] != word@[i as int]);
            return false;
        }
        i += 1;
    }
    assert(s@.subrange(from as int, to as int) =~= word@);
    true
}

fn name_of(scan: Scan) -> (name: Vec<char>)
    ensures
        name@ == scan.name(),
{
    match scan {
        Scan::SYN => vec!['S', 'Y', 'N'],
        Scan::NULL => vec!['N', 'U', 'L', 'L'],
        Scan::ACK => vec!['A', 'C', 'K'],
        Scan::FIN => vec!['F', 'I', 'N'],
        Scan::XMAS => vec!['X', 'M', 'A', 'S'],
        Scan::UDP => vec!['U', 'D', 'P'],
    }
}

/// The technique that `s[from..to]` names, as it stands or, with `fold`, with
/// its ASCII letters taken as upper case.
fn recognise(s: &Vec<char>, from: usize, to: usize, fold: bool) -> (scan: Option<Scan>)
    requires
        from <= to <= s@.len(),
    ensures
        scan == scan_named(
            if fold {
                to_upper(s@.subrange(from as int, to as int))
            } else {
                s@.subrange(from as int, to as int)
            },
        ),
{
    let mut i: u16 = 0;
    while i < 6
        invariant
            i <= 6,
            from <= to <= s@.len(),
            forall|k: int|
                0 <= k < i ==> (if fold {
                    to_upper(s@.subrange(from as int, to as int))
                } else {
                    s@.subrange(from as int, to as int)
                }) != (#[trigger] Scan::at(k)).name(),
        decreases 6 - i,
    {
        let scan = match Scan::from_index(i) {
            Some(scan) => scan,
            None => {
                return None;
            },
        };
        let name = name_of(scan);
        let same = if fold {
            is_word(s, from, to, &name)
        } else {
            same_chars(s, from, to, &name)
        };
        if same {
            proof {
                lemma_names_differ();
            }
            return Some(scan);
        }
        i += 1;
    }
    proof {
        assert(Scan::at(0) == Scan::SYN && Scan::at(1) == Scan::NULL && Scan::at(2) == Scan::ACK
            && Scan::at(3) == Scan::FIN && Scan::at(4) == Scan::XMAS && Scan::at(5) == Scan::UDP);
    }
    None
}

/// No two techniques have the same name.
pub proof fn lemma_names_differ()
    ensures
        forall|a: Scan, b: Scan| a.name() == b.name() ==> a == b,
{
    assert forall|a: Scan, b: Scan| a.name() == b.name() implies a == b by {
        if a != b {
            assert(a.name().len() != b.name().len() || a.name()[0] != b.name()[0]);
        }
    }
}

impl Default for LoopIterator<Scan> {
    /// The cursor over all six techniques.
    fn default() -> (cursor: Self)
        ensures
            cursor.items() == seq![
                Scan::SYN,
                Scan::NULL,
                Scan::ACK,
                Scan::FIN,
                Scan::XMAS,
                Scan::UDP,
            ],
            cursor.position() == 0,
    {
        LoopIterator::from(vec![Scan::SYN, Scan::NULL, Scan::ACK, Scan::FIN, Scan::XMAS, Scan::UDP])
    }
}

/// Parses a scan-list expression.
#[derive(Clone, Copy, Debug)]
pub struct Parser;

impl Parser {
    /// The error for the item at `index`, which names no technique.
    #[allow(non_snake_case)]
    pub fn InvalidValue(index: usize) -> (error: ParseError)
        ensures
            error == ParseError::InvalidValue(index),
    {
        ParseError::InvalidValue(index)
    }

    /// Parses a list of technique names, separated by commas, in upper or
    /// lower case, with white space around them. Empty items are passed
    /// over. The result holds each named technique once, in the order of the
    /// enumeration; the first item that names no technique is an error.
    pub fn parse_ref(&self, raw_value: &str) -> (parsed: Result<LoopIterator<Scan>, ParseError>)
        ensures
            parsed matches Ok(cursor) ==> in_order(cursor.items()) && cursor.items().no_duplicates(),
            match listed(split(raw_value@, ',')) {
                Ok(scans) => parsed matches Ok(cursor) && cursor.items() == normalized(scans)
                    && cursor.position() == 0,
                Err(bad) => parsed matches Err(e) && e == ParseError::InvalidValue(bad as usize),
            },
    {
        let chars = chars_of(raw_value);
        let n = chars.len();
        let ghost items = split(chars@, ',');
        let ghost mut done: Seq<Seq<char>> = Seq::empty();
        let ghost mut scans: Seq<Scan> = Seq::empty();
        let mut present: [bool; 6] = [false; 6];
        let mut index: usize = 0;
        let mut from: usize = 0;
        let mut more = true;
        assert(chars@.skip(0) =~= chars@);
        while more
            invariant
                n == chars@.len(),
                chars@ == raw_value@,
                items == split(chars@, ','),
                from <= n,
                more ==> index == done.len(),
                index <= from,
                more ==> items == done + split(chars@.skip(from as int), ','),
                !more ==> items == done,
                listed(done) == Ok::<Seq<Scan>, int>(scans),
                forall|k: int| 0 <= k < 6 ==> present@[k] == scans.contains(#[trigger] Scan::at(k)),
            decreases n - from + if more { 1int } else { 0int },
        {
            let at = find(&chars, from, n, ',');
            proof {
                assert(chars@.subrange(from as int, n as int) =~= chars@.skip(from as int));
                lemma_split_step(chars@, ',', from as int, at as int);
            }
            let ghost item = chars@.subrange(from as int, at as int);
            let (a, b) = trim(&chars, from, at);
            let ghost longer = done.push(item);
            assert(longer.drop_last() =~= done);
            if a < b {
                match recognise(&chars, a, b, true) {
                    Some(scan) => {
                        let ghost earlier = scans;
                        proof {
                            scans = scans.push(scan);
                        }
                        present[scan.index() as usize] = true;
                        assert forall|k: int| 0 <= k < 6 implies present@[k] == scans.contains(
                            #[trigger] Scan::at(k),
                        ) by {
                            if Scan::at(k) == scan {
                                assert(scans[scans.len() - 1] == scan);
                            } else if earlier.contains(Scan::at(k)) {
                                let w = choose|w: int|
                                    0 <= w < earlier.len() && earlier[w] == Scan::at(k);
                                assert(scans[w] == Scan::at(k));
                            } else if scans.contains(Scan::at(k)) {
                                let w = choose|w: int|
                                    0 <= w < scans.len() && scans[w] == Scan::at(k);
                                assert(earlier[w] == Scan::at(k));
                            }
                        }
                    },
                    None => {
                        proof {
                            assert(listed(longer) == Err::<Seq<Scan>, int>(index as int));
                            if at < n {
                                assert(items =~= longer + split(chars@.skip(at + 1), ','));
                            } else {
                                assert(items =~= longer);
                            }
                            assert(items.take(longer.len() as int) =~= longer);
                            lemma_listed_error(items, longer.len() as int);
                        }
                        return Err(Parser::InvalidValue(index));
                    },
                }
            }
            proof {
                done = longer;
                if at < n {
                    assert(items =~= done + split(chars@.skip(at + 1), ','));
                } else {
                    assert(items =~= done);
                }
            }
            if at < n {
                from = at + 1;
                index += 1;
            } else {
                more = false;
            }
        }
        let mut result: Vec<Scan> = Vec::new();
        let mut k: u16 = 0;
        proof {
            assert(Scan::at(0) == Scan::SYN && Scan::at(1) == Scan::NULL && Scan::at(2) == Scan::ACK
                && Scan::at(3) == Scan::FIN && Scan::at(4) == Scan::XMAS && Scan::at(5)
                == Scan::UDP);
        }
        while k < 6
            invariant
                k <= 6,
                forall|j: int| 0 <= j < 6 ==> present@[j] == scans.contains(#[trigger] Scan::at(j)),
                result@ == partly_normalized(scans, k as int),
            decreases 6 - k,
        {
            if present[k as usize] {
                match Scan::from_index(k) {
                    Some(scan) => result.push(scan),
                    None => {},
                }
            }
            assert(partly_normalized(scans, k + 1) =~= partly_normalized(scans, k as int)
                + chosen(scans, Scan::at(k as int)));
            k += 1;
        }
        proof {
            lemma_normalized_in_steps(scans);
            lemma_normalized(scans);
        }
        Ok(LoopIterator::from(result))
    }
}

/// The techniques among `scans` that stand before position `upto` of the
/// enumeration, each once, in its order.
pub open spec fn partly_normalized(scans: Seq<Scan>, upto: int) -> Seq<Scan>
    decreases upto,
{
    if upto <= 0 {
        Seq::empty()
    } else {
        partly_normalized(scans, upto - 1) + chosen(scans, Scan::at(upto - 1))
    }
}

} // verus!
