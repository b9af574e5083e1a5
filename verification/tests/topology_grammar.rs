use guwah::ntwk::file_utils::{parse_header, parse_number};
use scanf::format::InputFormatParser;

/// What scanning a line with the given format and reading each piece as a
/// number gives: the numbers, or nothing when a piece is missing or is no
/// number.
fn scan(line: &str, format: &'static str, pieces: usize) -> Option<Vec<u32>> {
    let parser = InputFormatParser::new(format).unwrap();
    let inputs = parser.inputs(line).ok()?;
    let mut out = Vec::new();
    for k in 0..pieces {
        out.push(inputs.get(k)?.as_str().parse::<u32>().ok()?);
    }
    Some(out)
}

fn header(line: &str) -> Option<Vec<u32>> {
    parse_header(line.as_bytes()).map(|(a, b, c)| vec![a, b, c])
}

fn number(line: &str) -> Option<Vec<u32>> {
    parse_number(line.as_bytes()).map(|n| vec![n])
}

const SAMPLES: [&str; 34] = [
    "1,2,0",
    "1,2,3,4",
    "1,2",
    "1",
    "",
    ",",
    ",,",
    ",,,",
    " 1 , 2 , 3 ",
    "\t1,\t2,\t3",
    "1,2,3\r",
    "+1,+2,+3",
    "-1,2,3",
    "1,-2,3",
    "1,2,-3",
    "1, ,3",
    "a,b,c",
    "1 1,2,3",
    "4294967295,4294967295,4294967295",
    "4294967296,1,1",
    "1,4294967296,1",
    "1,1,4294967296",
    "007,08,0009",
    "1,2,3 # not stripped",
    "\u{a0}1\u{a0},\u{2003}2\u{2003},\u{3000}3\u{3000}",
    "\u{feff}1,2,3",
    "1,2,3\u{200b}",
    "endNode",
    "endNet",
    "1;2;3",
    "1,2,3,",
    "\u{661},\u{662},\u{663}",
    "1.0,2,3",
    "0,0,0",
];

#[test]
fn header_reads_what_the_scan_format_reads() {
    for line in SAMPLES {
        assert_eq!(header(line), scan(line, "{},{},{}", 3), "line {:?}", line);
    }
}

#[test]
fn neighbour_reads_what_the_scan_format_reads() {
    for line in SAMPLES {
        assert_eq!(number(line), scan(line, "{}", 1), "line {:?}", line);
    }
    for line in ["7", " 7", "7 ", "\t7\n", "+7", "-7", "", " ", "7 7", "\u{2028}7\u{2029}"] {
        assert_eq!(number(line), scan(line, "{}", 1), "line {:?}", line);
    }
}

#[test]
fn header_agrees_with_the_scan_format_on_generated_lines() {
    let alphabet = ['0', '1', '9', ',', ',', ' ', '\t', '+', '-', 'x', '\u{a0}', '\u{3000}', '4'];
    let mut state: u64 = 0x2545f4914f6cdd1d;
    for _ in 0..20000 {
        let mut line = String::new();
        state = state.wrapping_mul(6364136223846793005).wrapping_add(1442695040888963407);
        let len = (state >> 60) as usize;
        for _ in 0..len {
            state = state.wrapping_mul(6364136223846793005).wrapping_add(1442695040888963407);
            line.push(alphabet[((state >> 33) % alphabet.len() as u64) as usize]);
        }
        assert_eq!(header(&line), scan(&line, "{},{},{}", 3), "line {:?}", line);
        assert_eq!(number(&line), scan(&line, "{}", 1), "line {:?}", line);
    }
}
