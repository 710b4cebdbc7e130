use shape_arena::http::{lines, Http_request};
use shape_arena::math::matrix::check;
use shape_arena::parser::{find_on_level, get_mouse, get_variable, level_map, split, split_level};
use shape_arena::string::StringOperations;

#[test]
fn substring() {
    let string = "hello my name is jonsa".to_owned();
    let r = string.substring(2, 5);
    let e = "llo ";
    assert_eq!(r, e);
}

#[test]
fn get_variable_test() {
    let expected = "4325".to_owned();
    let test_string = "let x: i32 = 4325;".to_owned();
    let result = get_variable(&test_string, "x").unwrap();
    assert_eq!(expected, result);
}

#[test]
fn parser_parse_test() {
    let expected = (3, 52);
    let test_string = "let x: i32 = 3;let y: i32 = 52;".to_owned();
    let result = get_mouse(&test_string).unwrap();
    assert_eq!(expected, result);
}

#[test]
fn split_test() {
    let string = "i,want,some(a,b,c),milk".to_owned();
    let expected: Vec<String> = vec![
        "i".to_owned(),
        "want".to_owned(),
        "some(a".to_owned(),
        "b".to_owned(),
        "c)".to_owned(),
        "milk".to_owned(),
    ];
    let result = split(&string, ",");
    assert_eq!(expected, result);
}

#[test]
fn level_map_test() {
    let string = "i,want,some(a,b,c),milk".to_owned();
    let expected: Vec<usize> = vec![0, 0, 0, 0, 0, 0, 0, 0, 0, 0, 0, 1, 1, 1, 1, 1, 1, 0, 0, 0, 0, 0, 0];
    let result = level_map(&string);
    assert_eq!(expected, result);
}

#[test]
fn string_to_lines_test() {
    let string = "reqline\r\nheader1\nheader2\r\n\r\nbody".to_owned();
    let chars: Vec<char> = string.chars().collect();
    let lines: Vec<String> = lines(&chars).iter().map(|line| line.iter().collect()).collect();
    let expected = vec![
        "reqline".to_owned(),
        "header1".to_owned(),
        "header2".to_owned(),
        "".to_owned(),
        "body".to_owned(),
    ];
    assert_eq!(lines, expected);
}

#[test]
fn parse_header_test() {
    let str = "Content-Length: 34".to_owned();
    let act = Http_request::parse_header(&str);
    let exp = ("Content-Length".to_owned(), "34".to_owned());
    assert_eq!(act, exp);
}

#[test]
fn http_parse_test() {
    let str = "GET / HTTP/1.1\ncontent-type: json\ncontent-length: 342\r\n\r\nthis is a body".to_owned();
    let act = Http_request::parse(&str).unwrap();
    let exp = Http_request {
        request_line: "GET / HTTP/1.1".to_owned(),
        headers: vec![
            ("content-type".to_owned(), "json".to_owned()),
            ("content-length".to_owned(), "342".to_owned()),
        ],
        body: vec!["this is a body".to_owned()],
    };
    assert_eq!(act, exp);
}

#[test]
fn check_test() {
    let matrix1 = vec![vec![0.0, 5.0], vec![1.0, 3.0]];
    let matrix2 = vec![vec![0.0, 5.0], vec![1.0]];
    assert_eq!(check(&matrix1), true);
    assert_eq!(check(&matrix2), false);
}

#[test]
fn split_level_test() {
    let string = "i,want,some(a,b,c),milk".to_owned();
    let expected: Vec<String> = vec!["i".to_owned(), "want".to_owned(), "some(a,b,c)".to_owned(), "milk".to_owned()];
    let result = split_level(&string, ",");
    assert_eq!(expected, result);
}

#[test]
fn find_on_level_test() {
    let string = "i,want,some(a,b,c),milk".to_owned();
    assert_eq!(find_on_level(&string, 1, "a").unwrap(), 12);
    assert_eq!(find_on_level(&string, 0, "a").unwrap(), 3);
}
