use port_scanner::cli::port::RangeParser;
use port_scanner::cli::{arg, array, port, scan};
use port_scanner::iterators::ports::{Parser, Range, MAX_PORTS};
use port_scanner::iterators::scans::{Parser as ScanListParser, Scan};
use port_scanner::iterators::{LoopIterator, ParseError};
use port_scanner::text::{chars_of, find, is_whitespace, read_u16, to_upper_char, trim};

fn ranges(expression: &str) -> Result<Vec<(u16, u16)>, ParseError> {
    Parser.parse_ref(expression).map(|cursor| {
        cursor.as_vec().iter().map(|r| (r.peek().unwrap(), r.end())).collect()
    })
}

fn scans(expression: &str) -> Result<Vec<Scan>, ParseError> {
    ScanListParser.parse_ref(expression).map(|cursor| cursor.as_vec().clone())
}

#[test]
fn normalized_ranges_are_sorted_and_apart() {
    let expressions = [
        "10-50,12,1,80-80,20-45,1000-500,5-10,50-80",
        "3,2,1",
        "1-512,513-1024",
        "65535,1,65535-65000",
        "7-9,1-3,4-6",
        "100-200,150,90-100,201",
    ];
    for expression in expressions {
        let normal = ranges(expression).unwrap();
        let mut width: u32 = 0;
        for (i, (start, end)) in normal.iter().enumerate() {
            assert!(1 <= *start && start <= end);
            if i > 0 {
                assert!(normal[i - 1].1 < *start);
            }
            width += (*end - *start) as u32 + 1;
        }
        assert!(width <= MAX_PORTS);
    }
    assert_eq!(ranges("3,2,1"), Ok(vec![(1, 1), (2, 2), (3, 3)]));
    assert_eq!(ranges("1-512,513-1024"), Ok(vec![(1, 512), (513, 1024)]));
    assert_eq!(ranges("7-9,1-3,4-6"), Ok(vec![(1, 3), (4, 6), (7, 9)]));
    assert_eq!(ranges("100-200,150,90-100,201"), Ok(vec![(90, 200), (201, 201)]));
    assert_eq!(ranges("1-5,5-9"), Ok(vec![(1, 9)]));
    assert_eq!(ranges("1-5,6-9"), Ok(vec![(1, 5), (6, 9)]));
}

#[test]
fn the_limit_counts_distinct_ports() {
    assert_eq!(ranges("1-1024"), Ok(vec![(1, 1024)]));
    assert_eq!(ranges("1-1025"), Err(ParseError::RangeTooBig));
    assert_eq!(ranges("1-1024,1-1024,500-600"), Ok(vec![(1, 1024)]));
    assert_eq!(ranges("1-1024,2000"), Err(ParseError::RangeTooBig));
    assert_eq!(ranges("1-65535"), Err(ParseError::RangeTooBig));
    assert_eq!(ranges("64512-65535"), Ok(vec![(64512, 65535)]));
}

#[test]
fn port_items() {
    assert_eq!(ranges("80"), Ok(vec![(80, 80)]));
    assert_eq!(ranges(" 80 "), Ok(vec![(80, 80)]));
    assert_eq!(ranges("\t80 - 90\u{a0}"), Ok(vec![(80, 90)]));
    assert_eq!(ranges("90-80"), Ok(vec![(80, 90)]));
    assert_eq!(ranges("+80"), Ok(vec![(80, 80)]));
    assert_eq!(ranges("0080"), Ok(vec![(80, 80)]));
    assert_eq!(ranges("65535"), Ok(vec![(65535, 65535)]));
    assert_eq!(ranges("1,,2,"), Ok(vec![(1, 1), (2, 2)]));
    assert_eq!(ranges("65536"), Err(ParseError::InvalidValue(0)));
    assert_eq!(ranges("0"), Err(ParseError::InvalidValue(0)));
    assert_eq!(ranges("1,0"), Err(ParseError::InvalidValue(1)));
    assert_eq!(ranges("1,,x"), Err(ParseError::InvalidValue(2)));
    assert_eq!(ranges("1, ,2"), Err(ParseError::InvalidValue(1)));
    assert_eq!(ranges("1-"), Err(ParseError::InvalidValue(0)));
    assert_eq!(ranges("-1"), Err(ParseError::InvalidValue(0)));
    assert_eq!(ranges("+"), Err(ParseError::InvalidValue(0)));
    assert_eq!(ranges("1 2"), Err(ParseError::InvalidValue(0)));
    assert_eq!(ranges("8o"), Err(ParseError::InvalidValue(0)));
    assert_eq!(ranges("1,2-3-4,0"), Err(ParseError::InvalidValue(1)));
    assert_eq!(ranges("0,1-65535"), Err(ParseError::InvalidValue(0)));
    assert_eq!(ranges(""), Err(ParseError::InvalidValue(0)));
    assert_eq!(ranges(",,"), Err(ParseError::InvalidValue(0)));
    assert_eq!(Parser::InvalidValue(3), ParseError::InvalidValue(3));
    assert_eq!(Parser::RangeTooBig(), ParseError::RangeTooBig);
}

#[test]
fn validate_merges_what_overlaps_or_touches() {
    let given = vec![Range::new(5, 10), Range::new(1, 1), Range::new(10, 12), Range::new(3, 4)];
    assert_eq!(
        Parser::validate(given),
        Ok(vec![Range::new(1, 1), Range::new(3, 4), Range::new(5, 12)])
    );
    assert_eq!(Parser::validate(vec![]), Ok(vec![]));
    assert_eq!(
        Parser::validate(vec![Range::new(1, 600), Range::new(601, 1025)]),
        Err(ParseError::RangeTooBig)
    );
    assert_eq!(
        Parser::validate(vec![Range::new(1, 600), Range::new(600, 1024)]),
        Ok(vec![Range::new(1, 1024)])
    );
}

#[test]
fn restartable_ranges_are_validated_alike() {
    let mut given = arg::ArgIterator::<port::Range>::new();
    given.inner_as_mut().push(port::Range::new(20, 30));
    given.inner_as_mut().push(port::Range::new(1, 25));
    let mut spent = port::Range::new(40, 41);
    assert_eq!(spent.next(), Some(40));
    given.inner_as_mut().push(spent);
    let mut normal = RangeParser::validate(given).unwrap();
    assert_eq!(normal.inner(), &vec![port::Range::new(1, 30), port::Range::new(40, 41)]);
    assert_eq!(normal.next(), Some(1));
    let mut big = arg::ArgIterator::<port::Range>::new();
    big.inner_as_mut().push(port::Range::new(1, 2000));
    assert_eq!(RangeParser::validate(big).err(), Some(ParseError::RangeTooBig));
}

#[test]
fn scan_lists() {
    assert_eq!(scans("udp,SYN"), Ok(vec![Scan::SYN, Scan::UDP]));
    assert_eq!(scans("xmas,Fin,aCk,NULL,syn,udp,udp"), Ok(LoopIterator::<Scan>::default().as_vec().clone()));
    assert_eq!(scans(""), Ok(vec![]));
    assert_eq!(scans(" , ,"), Ok(vec![]));
    assert_eq!(scans(",syn ,"), Ok(vec![Scan::SYN]));
    assert_eq!(scans("syn,,tcp"), Err(ParseError::InvalidValue(2)));
    assert_eq!(scans("s yn"), Err(ParseError::InvalidValue(0)));
    assert_eq!(scans("SYN;UDP"), Err(ParseError::InvalidValue(0)));
    assert_eq!(scans("synn"), Err(ParseError::InvalidValue(0)));
    assert_eq!(scans("sy"), Err(ParseError::InvalidValue(0)));
    assert_eq!(ScanListParser::InvalidValue(1), ParseError::InvalidValue(1));
}

#[test]
fn scan_names_and_masks() {
    let all = [Scan::SYN, Scan::NULL, Scan::ACK, Scan::FIN, Scan::XMAS, Scan::UDP];
    let names = ["SYN", "NULL", "ACK", "FIN", "XMAS", "UDP"];
    let masks = [Some(0b00_0010u16), Some(0), Some(0b01_0000), Some(0b00_0001), Some(0b10_1001), None];
    for i in 0..6 {
        assert_eq!(String::from(all[i]), names[i]);
        assert_eq!(Scan::try_from(names[i]), Ok(all[i]));
        assert_eq!(all[i].index() as usize, i);
        assert_eq!(Scan::from_index(i as u16), Some(all[i]));
        assert_eq!(all[i].flags(), masks[i]);
        assert_eq!(u16::try_from(all[i]).ok(), masks[i]);
    }
    assert_eq!(Scan::from_index(6), None);
    assert_eq!(Scan::try_from("syn"), Err(()));
    assert_eq!(Scan::try_from("SYN "), Err(()));
    assert_eq!(Scan::try_from(""), Err(()));
    assert_eq!(u16::try_from(Scan::UDP), Err(()));
}

#[test]
fn defaults() {
    assert_eq!(LoopIterator::<Range>::default().as_vec(), &vec![Range::new(1, 1024)]);
    assert_eq!(LoopIterator::<Scan>::default().len(), 6);
    assert_eq!(arg::ArgIterator::<port::Range>::default().inner(), &vec![port::Range::new(1, 1024)]);
    assert_eq!(array::Array::<port::Range>::default().inner(), &vec![port::Range::new(1, 1024)]);
    assert_eq!(array::Array::<scan::Scan>::default().inner().len(), 6);
    let mut list = array::Array::<u8>::new();
    assert!(list.inner().is_empty());
    list.inner_as_mut().push(3);
    assert_eq!(list.inner(), &vec![3u8]);
    let copy = LoopIterator::from(vec![1u32, 2]).clone();
    assert_eq!(copy.as_vec(), &vec![1u32, 2]);
}

#[test]
fn cursors_loop_back() {
    let mut hosts = LoopIterator::from(vec![7u32, 9]);
    assert_eq!(hosts.next(), Some(7));
    assert_eq!(hosts.next(), Some(9));
    assert_eq!(hosts.next(), None);
    assert_eq!(hosts.next(), Some(7));
    let mut range = Range::new(5, 3);
    assert_eq!(range.peek(), Some(5));
    assert_eq!(range.next(), Some(5));
    assert_eq!(range.next(), None);
    assert_eq!(range.peek(), None);
    assert!(Range::new(3, 9).starts_by(3));
    assert!(!Range::new(3, 9).starts_by(2));
    let mut restartable = port::Range::new(2, 3);
    assert_eq!((restartable.start(), restartable.end()), (2, 3));
    assert_eq!(
        [restartable.next(), restartable.next(), restartable.next(), restartable.next()],
        [Some(2), Some(3), None, Some(2)]
    );
}

#[test]
fn text_helpers() {
    let chars = chars_of(" a,b\u{3000}+12x");
    assert_eq!(chars.len(), 9);
    assert_eq!(find(&chars, 0, 9, ','), 2);
    assert_eq!(find(&chars, 3, 9, ','), 9);
    assert_eq!(trim(&chars, 0, 2), (1, 2));
    assert_eq!(trim(&chars, 3, 5), (3, 4));
    assert_eq!(trim(&chars, 0, 1), (1, 1));
    assert_eq!(read_u16(&chars, 5, 8), Some(12));
    assert_eq!(read_u16(&chars, 6, 8), Some(12));
    assert_eq!(read_u16(&chars, 5, 9), None);
    assert_eq!(read_u16(&chars, 5, 6), None);
    assert_eq!(read_u16(&chars, 5, 5), None);
    for c in ['\t', '\n', '\u{b}', '\u{c}', '\r', ' ', '\u{85}', '\u{a0}', '\u{1680}', '\u{2000}', '\u{200a}', '\u{2028}', '\u{2029}', '\u{202f}', '\u{205f}', '\u{3000}'] {
        assert!(is_whitespace(c) && c.is_whitespace());
    }
    for code in 0..0x11_0000u32 {
        if let Some(c) = char::from_u32(code) {
            assert_eq!(is_whitespace(c), c.is_whitespace());
            if c.is_ascii() {
                assert_eq!(to_upper_char(c), c.to_ascii_uppercase());
            } else {
                assert_eq!(to_upper_char(c), c);
            }
        }
    }
}

/// A port expression read with the standard library's `split`, `trim` and
/// `parse`, its ranges sorted and merged pair by pair.
fn read_with_std(expression: &str) -> Result<Vec<(u16, u16)>, ParseError> {
    let mut given: Vec<(u16, u16)> = vec![];
    for (index, item) in expression.split(',').enumerate() {
        if item.is_empty() {
            continue;
        }
        let mut bounds: Vec<u16> = vec![];
        for piece in item.splitn(2, '-') {
            match piece.trim().parse::<u16>() {
                Ok(value) if value != 0 => bounds.push(value),
                _ => return Err(ParseError::InvalidValue(index)),
            }
        }
        let low = *bounds.iter().min().unwrap();
        let high = *bounds.iter().max().unwrap();
        given.push((low, high));
    }
    if given.is_empty() {
        return Err(ParseError::InvalidValue(0));
    }
    given.sort();
    let mut merged: Vec<(u16, u16)> = vec![];
    for (low, high) in given {
        match merged.last_mut() {
            Some(last) if last.1 >= low => last.1 = last.1.max(high),
            _ => merged.push((low, high)),
        }
    }
    let total: u32 = merged.iter().map(|r| (r.1 - r.0) as u32 + 1).sum();
    if total > 1024 {
        return Err(ParseError::RangeTooBig);
    }
    Ok(merged)
}

#[test]
fn port_expressions_agree_with_the_standard_library() {
    let alphabet: Vec<char> = "0123456789,,,--  +1\t9x".chars().collect();
    let mut state: u64 = 0x2545f4914f6cdd1d;
    let mut next = move || {
        state ^= state << 13;
        state ^= state >> 7;
        state ^= state << 17;
        state
    };
    let mut accepted = 0;
    for _ in 0..30_000 {
        let length = (next() % 14) as usize;
        let expression: String =
            (0..length).map(|_| alphabet[(next() % alphabet.len() as u64) as usize]).collect();
        let expected = read_with_std(&expression);
        assert_eq!(ranges(&expression), expected, "{:?}", expression);
        if expected.is_ok() {
            accepted += 1;
        }
    }
    assert!(accepted > 1_000);
}

#[test]
fn numbers_agree_with_the_standard_library() {
    let alphabet: Vec<char> = "0123456789+- 65".chars().collect();
    let mut state: u64 = 0x9e3779b97f4a7c15;
    let mut next = move || {
        state ^= state << 13;
        state ^= state >> 7;
        state ^= state << 17;
        state
    };
    for _ in 0..30_000 {
        let length = (next() % 7) as usize;
        let text: String =
            (0..length).map(|_| alphabet[(next() % alphabet.len() as u64) as usize]).collect();
        let chars = chars_of(&text);
        assert_eq!(read_u16(&chars, 0, chars.len()), text.parse::<u16>().ok(), "{:?}", text);
        let (from, to) = trim(&chars, 0, chars.len());
        let trimmed: String = chars[from..to].iter().collect();
        assert_eq!(trimmed, text.trim());
    }
    for value in 0..=u16::MAX {
        let text = format!("{}", value);
        let chars = chars_of(&text);
        assert_eq!(read_u16(&chars, 0, chars.len()), Some(value));
    }
    for value in 65_536..66_000u32 {
        let chars = chars_of(&format!("{}", value));
        assert_eq!(read_u16(&chars, 0, chars.len()), None);
    }
}

#[test]
fn scan_lists_agree_with_the_standard_library() {
    let words = ["syn", "SYN", " null", "ack ", "Fin", "xmas", "UDP", "", " ", "tcp", "sy n", "\tudp\n"];
    let all = [Scan::SYN, Scan::NULL, Scan::ACK, Scan::FIN, Scan::XMAS, Scan::UDP];
    let names = ["SYN", "NULL", "ACK", "FIN", "XMAS", "UDP"];
    let mut state: u64 = 0x853c49e6748fea9b;
    let mut next = move || {
        state ^= state << 13;
        state ^= state >> 7;
        state ^= state << 17;
        state
    };
    for _ in 0..20_000 {
        let count = 1 + (next() % 5) as usize;
        let items: Vec<&str> = (0..count).map(|_| words[(next() % words.len() as u64) as usize]).collect();
        let expression = items.join(",");
        let mut expected: Result<Vec<Scan>, ParseError> = Ok(vec![]);
        for (index, item) in expression.split(',').enumerate() {
            let name = item.trim().to_uppercase();
            if name.is_empty() {
                continue;
            }
            match names.iter().position(|n| *n == name) {
                Some(at) => {
                    if let Ok(list) = expected.as_mut() {
                        list.push(all[at]);
                    }
                }
                None => {
                    expected = Err(ParseError::InvalidValue(index));
                    break;
                }
            }
        }
        if let Ok(list) = expected.as_mut() {
            list.sort();
            list.dedup();
        }
        assert_eq!(scans(&expression), expected, "{:?}", expression);
    }
}
