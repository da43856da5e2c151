use std::io::BufRead;

use oid_registry::text::{bytes_equal, find, replace, split, split_lines};
use oid_registry::{generate_file, load_file, parse_line, Field, MalformedInput};

fn generated(text: &str) -> String {
    let map = load_file(text.as_bytes()).unwrap();
    String::from_utf8(generate_file(&map)).unwrap()
}

#[test]
fn line_yields_constant_and_method() {
    let out = generated("crypto\tOID_FOO\t1.2.3.4\tfoo\tFoo algorithm\n");
    let expected = "pub const OID_FOO: Oid<'static> = oid!(1.2.3.4);\n\
\n\
impl OidRegistry {\n\
\x20   #[cfg(feature = \"crypto\")]\n\
\x20   pub fn with_crypto(mut self) -> Self {\n\
\x20       self.insert(oid!(1.2.3.4), OidEntry::new(\"foo\", \"Foo algorithm\"));\n\
\x20       self\n\
\x20   }\n\
\n\
}\n";
    assert_eq!(out, expected);
}

#[test]
fn line_is_parsed_into_its_fields() {
    let map = load_file(b"crypto\tOID_FOO\t1.2.3.4\tfoo\tFoo algorithm").unwrap();
    assert_eq!(map.len(), 1);
    assert_eq!(map.feature(0), b"crypto");
    let entries = map.get(b"crypto").unwrap();
    assert_eq!(entries.len(), 1);
    assert_eq!(entries[0].name(), b"OID_FOO");
    assert_eq!(entries[0].oid(), b"1.2.3.4");
    assert_eq!(entries[0].sn(), b"foo");
    assert_eq!(entries[0].description(), b"Foo algorithm");
    assert!(map.get(b"other").is_none());
    assert_eq!(map.index_of(b"crypto"), 0);
    assert_eq!(map.index_of(b"other"), 1);
}

#[test]
fn sentinel_name_gets_no_constant() {
    let out = generated("x509\t\"\"\t2.5.4.3\tcommonName\tCommon Name\n");
    let expected = "\n\
impl OidRegistry {\n\
\x20   #[cfg(feature = \"x509\")]\n\
\x20   pub fn with_x509(mut self) -> Self {\n\
\x20       self.insert(oid!(2.5.4.3), OidEntry::new(\"commonName\", \"Common Name\"));\n\
\x20       self\n\
\x20   }\n\
\n\
}\n";
    assert_eq!(out, expected);
    assert!(!out.contains("pub const"));
}

#[test]
fn sentinel_is_exactly_two_quotes() {
    let out = generated("f\t\"\"\"\t1.2\ta\tb\nf\t\"\t1.3\tc\td\nf\t\t1.4\te\tf\n");
    assert!(out.contains("pub const \"\"\": Oid<'static> = oid!(1.2);\n"));
    assert!(out.contains("pub const \": Oid<'static> = oid!(1.3);\n"));
    assert!(out.contains("pub const : Oid<'static> = oid!(1.4);\n"));
}

#[test]
fn one_feature_two_entries_in_file_order() {
    let out = generated(
        "crypto\tOID_B\t1.2.3.5\tbar\tBar algorithm\ncrypto\tOID_A\t1.2.3.4\tfoo\tFoo algorithm\n",
    );
    let expected = "pub const OID_B: Oid<'static> = oid!(1.2.3.5);\n\
pub const OID_A: Oid<'static> = oid!(1.2.3.4);\n\
\n\
impl OidRegistry {\n\
\x20   #[cfg(feature = \"crypto\")]\n\
\x20   pub fn with_crypto(mut self) -> Self {\n\
\x20       self.insert(oid!(1.2.3.5), OidEntry::new(\"bar\", \"Bar algorithm\"));\n\
\x20       self.insert(oid!(1.2.3.4), OidEntry::new(\"foo\", \"Foo algorithm\"));\n\
\x20       self\n\
\x20   }\n\
\n\
}\n";
    assert_eq!(out, expected);
    assert_eq!(out.matches("pub fn with_crypto").count(), 1);
}

#[test]
fn features_are_grouped_in_order_of_first_occurrence() {
    let text = "b\tB1\t1.1\tb1\tfirst of b\n\
a\tA1\t2.1\ta1\tfirst of a\n\
b\tB2\t1.2\tb2\tsecond of b\n\
a\tA2\t2.2\ta2\tsecond of a\n\
b\tB3\t1.3\tb3\tthird of b\n";
    let map = load_file(text.as_bytes()).unwrap();
    assert_eq!(map.len(), 2);
    assert_eq!(map.feature(0), b"b");
    assert_eq!(map.feature(1), b"a");
    let names: Vec<&[u8]> = map.entries(0).iter().map(|e| e.name()).collect();
    assert_eq!(names, vec![&b"B1"[..], &b"B2"[..], &b"B3"[..]]);
    let names: Vec<&[u8]> = map.entries(1).iter().map(|e| e.name()).collect();
    assert_eq!(names, vec![&b"A1"[..], &b"A2"[..]]);

    let out = String::from_utf8(generate_file(&map)).unwrap();
    let expected = "pub const B1: Oid<'static> = oid!(1.1);\n\
pub const B2: Oid<'static> = oid!(1.2);\n\
pub const B3: Oid<'static> = oid!(1.3);\n\
pub const A1: Oid<'static> = oid!(2.1);\n\
pub const A2: Oid<'static> = oid!(2.2);\n\
\n\
impl OidRegistry {\n\
\x20   #[cfg(feature = \"b\")]\n\
\x20   pub fn with_b(mut self) -> Self {\n\
\x20       self.insert(oid!(1.1), OidEntry::new(\"b1\", \"first of b\"));\n\
\x20       self.insert(oid!(1.2), OidEntry::new(\"b2\", \"second of b\"));\n\
\x20       self.insert(oid!(1.3), OidEntry::new(\"b3\", \"third of b\"));\n\
\x20       self\n\
\x20   }\n\
\n\
\x20   #[cfg(feature = \"a\")]\n\
\x20   pub fn with_a(mut self) -> Self {\n\
\x20       self.insert(oid!(2.1), OidEntry::new(\"a1\", \"first of a\"));\n\
\x20       self.insert(oid!(2.2), OidEntry::new(\"a2\", \"second of a\"));\n\
\x20       self\n\
\x20   }\n\
\n\
}\n";
    assert_eq!(out, expected);
}

#[test]
fn insert_lines_keep_file_order() {
    let out = generated("f\tX\t1.9\tlate\tz\ng\tY\t2.1\tother\ty\nf\tZ\t1.1\tearly\ta\n");
    let first = out.find("self.insert(oid!(1.9)").unwrap();
    let second = out.find("self.insert(oid!(1.1)").unwrap();
    let method = out.find("pub fn with_f").unwrap();
    let next = out.find("pub fn with_g").unwrap();
    assert!(method < first && first < second && second < next);
}

#[test]
fn duplicate_names_and_oids_are_kept() {
    let out = generated("a\tSAME\t1.2\tone\tOne\nb\tSAME\t1.2\ttwo\tTwo\n");
    assert_eq!(out.matches("pub const SAME: Oid<'static> = oid!(1.2);\n").count(), 2);
    assert_eq!(out.matches("self.insert(oid!(1.2), ").count(), 2);
}

#[test]
fn empty_text_generates_an_empty_block() {
    let map = load_file(b"").unwrap();
    assert_eq!(map.len(), 0);
    assert_eq!(generate_file(&map), b"\nimpl OidRegistry {\n}\n");
    assert_eq!(generated("# only a comment\n\n"), "\nimpl OidRegistry {\n}\n");
}

#[test]
fn comments_and_empty_lines_are_skipped() {
    let text = "# a comment\n\n#crypto\tX\t1.2\tx\tX\ncrypto\tOID_FOO\t1.2.3.4\tfoo\tFoo\n\n# end";
    let map = load_file(text.as_bytes()).unwrap();
    assert_eq!(map.len(), 1);
    assert_eq!(map.entries(0).len(), 1);
    assert_eq!(map.entries(0)[0].name(), b"OID_FOO");
}

#[test]
fn hash_later_in_a_line_is_no_comment() {
    let map = load_file(b" #f\tN\t1.2\ts\td\n").unwrap();
    assert_eq!(map.feature(0), b" #f");
}

#[test]
fn hyphens_in_the_feature_become_underscores() {
    let map = load_file(b"nist-hash-algs\tOID-X\t1.2\ts-n\tde-scription\n").unwrap();
    assert_eq!(map.feature(0), b"nist_hash_algs");
    let entry = &map.entries(0)[0];
    assert_eq!(entry.name(), b"OID-X");
    assert_eq!(entry.sn(), b"s-n");
    assert_eq!(entry.description(), b"de-scription");
    assert!(map.get(b"nist_hash_algs").is_some());
    assert!(map.get(b"nist-hash-algs").is_none());
}

#[test]
fn hyphen_and_underscore_features_share_a_group() {
    let map = load_file(b"a-b\tX\t1.1\tx\tX\na_b\tY\t1.2\ty\tY\n").unwrap();
    assert_eq!(map.len(), 1);
    assert_eq!(map.entries(0).len(), 2);
}

#[test]
fn fields_are_not_trimmed() {
    let map = load_file(b" f \t N \t 1.2 \t s \t d \n").unwrap();
    assert_eq!(map.feature(0), b" f ");
    let entry = &map.entries(0)[0];
    assert_eq!(entry.name(), b" N ");
    assert_eq!(entry.oid(), b" 1.2 ");
    assert_eq!(entry.sn(), b" s ");
    assert_eq!(entry.description(), b" d ");
}

#[test]
fn description_keeps_further_tabs() {
    let (feature, entry) = parse_line(b"f\tN\t1.2\ts\td\twith\ttabs\t").unwrap();
    assert_eq!(feature, b"f");
    assert_eq!(entry.description(), b"d\twith\ttabs\t");
}

#[test]
fn empty_fields_are_fields() {
    let (feature, entry) = parse_line(b"\t\t\t\t").unwrap();
    assert_eq!(feature, b"");
    assert_eq!(entry.name(), b"");
    assert_eq!(entry.oid(), b"");
    assert_eq!(entry.sn(), b"");
    assert_eq!(entry.description(), b"");
}

#[test]
fn parsed_fields_rejoin_to_the_line() {
    let line = "crypto\tOID_FOO\t1.2.3.4\tfoo\tFoo\talgorithm \u{e9}";
    let (feature, entry) = parse_line(line.as_bytes()).unwrap();
    let fields: Vec<&[u8]> =
        vec![&feature, entry.name(), entry.oid(), entry.sn(), entry.description()];
    assert_eq!(fields.join(&b'\t'), line.as_bytes());
}

#[test]
fn short_lines_name_the_first_missing_field() {
    assert_eq!(parse_line(b"crypto").unwrap_err(), Field::Name);
    assert_eq!(parse_line(b"crypto\tOID_FOO").unwrap_err(), Field::Oid);
    assert_eq!(parse_line(b"crypto\tOID_FOO\t1.2.3.4").unwrap_err(), Field::ShortName);
    assert_eq!(parse_line(b"crypto\tOID_FOO\t1.2.3.4\tfoo").unwrap_err(), Field::Description);
    assert_eq!(parse_line(b"crypto\t").unwrap_err(), Field::Oid);
    assert_eq!(parse_line(b"crypto OID_FOO 1.2.3.4 foo Foo").unwrap_err(), Field::Name);
}

#[test]
fn loading_fails_at_the_first_malformed_line() {
    let text = "# header\ncrypto\tA\t1.2\ta\tA\ncrypto\tB\t1.3\nbad\ncrypto\tC\t1.4\tc\tC\n";
    let error = load_file(text.as_bytes()).unwrap_err();
    assert_eq!(error, MalformedInput { line: 2, missing: Field::ShortName });
    let error = load_file(b"only one field").unwrap_err();
    assert_eq!(error, MalformedInput { line: 0, missing: Field::Name });
    let error = load_file(b"\n\nf\tN\t1.2\ts\n").unwrap_err();
    assert_eq!(error, MalformedInput { line: 2, missing: Field::Description });
    let error = load_file(b"f\tN\n").unwrap_err();
    assert_eq!(error, MalformedInput { line: 0, missing: Field::Oid });
}

#[test]
fn fields_have_labels() {
    assert_eq!(Field::Feature.label(), "feature");
    assert_eq!(Field::Name.label(), "name");
    assert_eq!(Field::Oid.label(), "OID");
    assert_eq!(Field::ShortName.label(), "short name");
    assert_eq!(Field::Description.label(), "description");
}

#[test]
fn lines_end_at_line_feeds() {
    assert_eq!(split_lines(b""), Vec::<&[u8]>::new());
    assert_eq!(split_lines(b"a"), vec![&b"a"[..]]);
    assert_eq!(split_lines(b"a\n"), vec![&b"a"[..]]);
    assert_eq!(split_lines(b"a\nb"), vec![&b"a"[..], &b"b"[..]]);
    assert_eq!(split_lines(b"\n"), vec![&b""[..]]);
    assert_eq!(split_lines(b"a\n\nb\n"), vec![&b"a"[..], &b""[..], &b"b"[..]]);
}

#[test]
fn carriage_return_before_line_feed_is_dropped() {
    assert_eq!(split_lines(b"a\r\nb\r\n"), vec![&b"a"[..], &b"b"[..]]);
    assert_eq!(split_lines(b"a\r\r\n"), vec![&b"a\r"[..]]);
    assert_eq!(split_lines(b"a\rb\n"), vec![&b"a\rb"[..]]);
    assert_eq!(split_lines(b"a\r"), vec![&b"a\r"[..]]);
    assert_eq!(split_lines(b"\r\n"), vec![&b""[..]]);
    let map = load_file(b"f\tN\t1.2\ts\td\r\n").unwrap();
    assert_eq!(map.entries(0)[0].description(), b"d");
}

#[test]
fn lines_are_those_of_the_standard_reader() {
    let text = "a\r\nb\n\nc\r\r\n\rd\ne\r";
    let expected: Vec<String> = text.as_bytes().lines().map(|l| l.unwrap()).collect();
    let lines: Vec<String> =
        split_lines(text.as_bytes()).iter().map(|l| String::from_utf8(l.to_vec()).unwrap()).collect();
    assert_eq!(lines, expected);
}

#[test]
fn split_cuts_at_the_first_separators() {
    assert_eq!(split(b"a,b,c", b',', 5), vec![&b"a"[..], &b"b"[..], &b"c"[..]]);
    assert_eq!(split(b"a,b,c", b',', 2), vec![&b"a"[..], &b"b,c"[..]]);
    assert_eq!(split(b"a,b,c", b',', 1), vec![&b"a,b,c"[..]]);
    assert_eq!(split(b"a,b,c", b',', 0), Vec::<&[u8]>::new());
    assert_eq!(split(b"", b',', 3), vec![&b""[..]]);
    assert_eq!(split(b",", b',', 3), vec![&b""[..], &b""[..]]);
    let expected: Vec<&str> = "a\tb\t\tc\td\te".splitn(5, '\t').collect();
    let pieces = split(b"a\tb\t\tc\td\te", b'\t', 5);
    assert_eq!(pieces.len(), expected.len());
    for i in 0..pieces.len() {
        assert_eq!(pieces[i], expected[i].as_bytes());
    }
}

#[test]
fn find_replace_and_compare() {
    assert_eq!(find(b"abc", b'b'), 1);
    assert_eq!(find(b"abcb", b'b'), 1);
    assert_eq!(find(b"abc", b'x'), 3);
    assert_eq!(find(b"", b'x'), 0);
    assert_eq!(replace(b"a-b--c", b'-', b'_'), b"a_b__c");
    assert_eq!(replace(b"", b'-', b'_'), b"");
    assert!(bytes_equal(b"abc", b"abc"));
    assert!(!bytes_equal(b"abc", b"abd"));
    assert!(!bytes_equal(b"abc", b"ab"));
    assert!(bytes_equal(b"", b""));
}
