use std::error::Error;

use puzzler::grids::grid::GridError;
use puzzler::grids::point::Point;
use puzzler::parsers::parser::LineError;
use puzzler::parsers::parser::ParseError;
use puzzler::parsers::parser::Parser;

#[derive(PartialEq, Debug)]
struct Button {
    x: isize,
    y: isize,
}

fn owned(lines: &[&str]) -> Vec<String> {
    lines.iter().map(|line| line.to_string()).collect()
}

#[test]
fn test_group_lines_empty_line() {
    let lines = vec![
        "1".to_string(),
        "2".to_string(),
        "3".into(),
        "".to_string(),
        "Something else".to_string(),
    ];

    let groups = Parser::group_lines(lines);

    assert_eq!(groups.len(), 2);
    assert_eq!(
        groups[0],
        vec!["1".to_string(), "2".to_string(), "3".to_string()]
    );
    assert_eq!(groups[1], vec!["Something else".to_string()])
}

#[test]
fn test_parse_lines_with_regex() {
    let lines = vec![
        "Button A: X+77, Y+52".to_string(),
        "Button A: X+98, Y+61".to_string(),
        "Button A: X+54, Y+20".to_string(),
    ];

    let regex = r#"^Button A: X\+(\d+), Y\+(\d+)"#;

    let result = Parser::parse_lines_with_regex(
        lines,
        regex,
        |params| -> Result<Button, Box<dyn Error>> {
            if params.len() != 2 {
                return Err(format!(
                    "Invalid number of parameters '{}', expected: 2",
                    params.len()
                )
                .into());
            }

            Ok(Button {
                x: params[0].parse::<isize>()?,
                y: params[1].parse::<isize>()?,
            })
        },
    );

    assert!(result.is_ok());
    assert_eq!(
        result.unwrap(),
        vec![
            Button { x: 77, y: 52 },
            Button { x: 98, y: 61 },
            Button { x: 54, y: 20 }
        ]
    );
}

#[test]
fn test_parse_lines_with_regex_error() {
    let lines = vec![
        "Button A: X+77, Y+52".to_string(),
        "Button A: X+98, Y+61".to_string(),
        "Button A: X+54, Y+20".to_string(),
    ];

    let regex = r#"^Button A: X\+(\d+), Y\+(\d+)"#;

    let result: Result<Vec<isize>, LineError<Box<dyn Error>>> =
        Parser::parse_lines_with_regex(lines, regex, |_| Err("Error".into()));

    assert!(result.is_err());
}

#[test]
fn test_parse_lines_to_integer() {
    let lines = vec![
        "-1".to_string(),
        " 2".to_string(),
        " 3".to_string(),
        " 4 ".to_string(),
    ];

    let result = Parser::parse_lines_to_integer(lines);

    assert!(result.is_ok());
    assert_eq!(result.unwrap(), vec![-1, 2, 3, 4]);
}

#[test]
fn test_parse_lines_to_integer_error() {
    let lines = vec!["-1".to_string(), "2oops".to_string(), "3".to_string()];

    let result = Parser::parse_lines_to_integer(lines);

    assert!(result.is_err());
}

#[test]
fn test_parse_lines_to_integers() {
    let lines = vec![" -1 2 3 -4 42 ".to_string(), " 2".to_string()];

    let result = Parser::parse_lines_to_integers(lines);
    assert!(result.is_ok());
    assert_eq!(result.unwrap(), vec![vec![-1, 2, 3, -4, 42], vec![2]]);
}

#[test]
fn test_parse_lines_to_integers_error() {
    let lines = vec![
        "-1 2 3 -4 42".to_string(),
        "2".to_string(),
        "3 oops".to_string(),
    ];

    let result = Parser::parse_lines_to_integers(lines);
    assert!(result.is_err());
}

#[test]
fn test_parse_lines_to_unsigned_integer() {
    let lines = vec![
        " 1 ".to_string(),
        "2 ".to_string(),
        " 3".to_string(),
        "4".to_string(),
    ];

    let result = Parser::parse_lines_to_integer(lines);

    assert!(result.is_ok());
    assert_eq!(result.unwrap(), vec![1, 2, 3, 4]);
}

#[test]
fn test_parse_lines_to_unsigned_integer_error() {
    let lines = vec!["1".to_string(), "2oops".to_string(), "3".to_string()];

    let result = Parser::parse_lines_to_integer(lines);

    assert!(result.is_err());
}

#[test]
fn test_parse_lines_to_unsigned_integers() {
    let lines = vec![
        "1".to_string(),
        " 2".to_string(),
        "3 ".to_string(),
        " 4 ".to_string(),
        "   5  6      7    8  ".to_string(),
    ];

    let result = Parser::parse_lines_to_unsigned_integers(lines);
    assert!(result.is_ok());
    assert_eq!(
        result.unwrap(),
        vec![vec![1], vec![2], vec![3], vec![4], vec![5, 6, 7, 8]]
    );
}

#[test]
fn test_parse_lines_to_unsigned_integers_error() {
    let lines = vec![
        "1 2 3 4 42".to_string(),
        "2".to_string(),
        "3 oops".to_string(),
    ];

    let result = Parser::parse_lines_to_unsigned_integers(lines);
    assert!(result.is_err());
}

#[test]
fn test_parse_lines_to_strings() {
    let lines = vec!["-1 2 3 -4 42".to_string(), "2".to_string()];

    let result = Parser::parse_lines_to_strings(lines, " ");
    assert!(result.is_ok());
    assert_eq!(
        result.unwrap(),
        vec![
            vec![
                "-1".to_string(),
                "2".to_string(),
                "3".to_string(),
                "-4".to_string(),
                "42".to_string()
            ],
            vec!["2".to_string()]
        ]
    );
}

#[test]
fn test_parse_lines_to_grid() {
    let lines = vec![
        "..#.S#".to_string(),
        "......".to_string(),
        "E#...#".to_string(),
    ];

    let result = Parser::parse_lines_to_grid(lines);
    assert!(result.is_ok());

    let grid = result.unwrap();
    assert_eq!(grid.rows(), 3);
    assert_eq!(grid.cols(), 6);
    assert_eq!(grid[Point { x: 0, y: 0 }], '.');
    assert_eq!(grid[Point { x: 4, y: 0 }], 'S');
    assert_eq!(grid[Point { x: 5, y: 0 }], '#');
    assert_eq!(grid[Point { x: 1, y: 1 }], '.');
    assert_eq!(grid[Point { x: 0, y: 2 }], 'E');
    assert_eq!(grid[Point { x: 1, y: 2 }], '#');
    assert_eq!(grid[Point { x: 5, y: 2 }], '#');
}

#[test]
fn test_parse_lines_to_grid_str() {
    let lines = vec!["..#.S#", "......", "E#...#"];

    let result = Parser::parse_lines_to_grid_str(&lines);
    assert!(result.is_ok());

    let grid = result.unwrap();
    assert_eq!(grid.rows(), 3);
    assert_eq!(grid.cols(), 6);
    assert_eq!(grid[Point { x: 0, y: 0 }], '.');
    assert_eq!(grid[Point { x: 4, y: 0 }], 'S');
    assert_eq!(grid[Point { x: 5, y: 0 }], '#');
    assert_eq!(grid[Point { x: 1, y: 1 }], '.');
    assert_eq!(grid[Point { x: 0, y: 2 }], 'E');
    assert_eq!(grid[Point { x: 1, y: 2 }], '#');
    assert_eq!(grid[Point { x: 5, y: 2 }], '#');
}

#[test]
fn test_decode_line_to_unsigned_integer() {
    let result = Parser::decode_line_to_unsigned_integer("Age: 42", "Age:");
    assert!(result.is_ok(), "{result:?}");
    assert_eq!(result.unwrap(), 42);
}

#[test]
fn test_decode_line_to_signed_integer() {
    let result = Parser::decode_line_to_signed_integer("Price: -100", "Price: ");
    assert!(result.is_ok(), "{result:?}");
    assert_eq!(result.unwrap(), -100);
}

#[test]
fn test_decode_line_to_string() {
    let result = Parser::decode_line_to_string("Name: N/A", "Name:");
    assert!(result.is_ok(), "{result:?}");
    assert_eq!(result.unwrap(), String::from("N/A"));
}

#[test]
fn integers_name_the_first_line_with_a_letter() {
    let lines = owned(&["1 2", "3 x", "y"]);

    assert_eq!(
        Parser::parse_lines_to_integers(lines),
        Err(ParseError::Letter(1))
    );
    assert_eq!(
        Parser::parse_lines_to_unsigned_integers(owned(&["7", "", "é"])),
        Err(ParseError::Letter(2))
    );
}

#[test]
fn integers_name_the_line_with_a_number_that_does_not_fit() {
    let lines = owned(&["1", "99999999999999999999999999999999"]);

    assert_eq!(
        Parser::parse_lines_to_integers(lines.clone()),
        Err(ParseError::Number(1))
    );
    assert_eq!(
        Parser::parse_lines_to_unsigned_integers(lines),
        Err(ParseError::Number(1))
    );
}

#[test]
fn integers_take_the_sign_only_where_signed() {
    assert_eq!(
        Parser::parse_lines_to_integers(owned(&["+1-2 3", "4,5;-6"])),
        Ok(vec![vec![1, -2, 3], vec![4, 5, -6]])
    );
    assert_eq!(
        Parser::parse_lines_to_unsigned_integers(owned(&["+1-2 3", "4,5;-6"])),
        Ok(vec![vec![1, 2, 3], vec![4, 5, 6]])
    );
}

#[test]
fn integers_of_no_lines_and_of_lines_without_numbers() {
    assert_eq!(Parser::parse_lines_to_integers(vec![]), Ok(vec![]));
    assert_eq!(
        Parser::parse_lines_to_integers(owned(&["", " . "])),
        Ok(vec![vec![], vec![]])
    );
    assert_eq!(Parser::parse_lines_to_integer(vec![]), Ok(vec![]));
}

#[test]
fn integers_keep_the_limits_of_the_machine_integers() {
    let lines = vec![format!("{} {}", isize::MIN, isize::MAX)];
    assert_eq!(
        Parser::parse_lines_to_integers(lines),
        Ok(vec![vec![isize::MIN, isize::MAX]])
    );

    let lines = vec![format!("{}", usize::MAX)];
    assert_eq!(
        Parser::parse_lines_to_unsigned_integers(lines.clone()),
        Ok(vec![vec![usize::MAX]])
    );
    assert_eq!(
        Parser::parse_lines_to_integers(lines),
        Err(ParseError::Number(0))
    );
}

#[test]
fn integers_refuse_digits_of_other_scripts() {
    // The pattern finds the digit, but it writes no number.
    let lines = owned(&["12", "\u{0663}"]);

    assert_eq!(
        Parser::parse_lines_to_integers(lines),
        Err(ParseError::Number(1))
    );
}

#[test]
fn single_integer_wants_exactly_one_number_in_each_line() {
    assert_eq!(
        Parser::parse_lines_to_integer(owned(&["1", "2 3", "4"])),
        Err(ParseError::Count(1))
    );
    assert_eq!(
        Parser::parse_lines_to_integer(owned(&["1", ""])),
        Err(ParseError::Count(1))
    );
    assert_eq!(
        Parser::parse_lines_to_unsigned_integer(owned(&["", "2"])),
        Err(ParseError::Count(0))
    );
    assert_eq!(
        Parser::parse_lines_to_unsigned_integer(owned(&["10", " 20 "])),
        Ok(vec![10, 20])
    );
}

#[test]
fn single_integer_reports_a_letter_before_a_wrong_count() {
    // All lines are read for their numbers before the numbers are counted.
    assert_eq!(
        Parser::parse_lines_to_integer(owned(&["1 2", "x"])),
        Err(ParseError::Letter(1))
    );
}

#[test]
fn strings_are_split_as_the_standard_library_splits() {
    let lines = [
        "-1 2 3 -4 42",
        "  a , b,c ,, d  ",
        "",
        "   ",
        ",",
        "aaa",
        "a--b---c",
        "\u{00a0}x\u{3000}y\u{2003}",
        "é→è→ê",
        "no pattern here",
    ];
    let patterns = [" ", ",", "", "aa", "--", "→", "a", "\u{3000}"];

    for pattern in patterns {
        let expected = lines
            .iter()
            .map(|line| {
                line.trim()
                    .split(pattern)
                    .map(str::trim)
                    .map(String::from)
                    .collect::<Vec<String>>()
            })
            .collect::<Vec<Vec<String>>>();

        assert_eq!(
            Parser::parse_lines_to_strings(owned(&lines), pattern),
            Ok(expected),
            "pattern: {pattern:?}"
        );
    }
}

#[test]
fn strings_of_the_empty_pattern_are_the_characters_between_two_empty_fields() {
    assert_eq!(
        Parser::parse_lines_to_strings(owned(&[" rust "]), ""),
        Ok(vec![owned(&["", "r", "u", "s", "t", ""])])
    );
}

#[test]
fn group_lines_drops_empty_lines_and_empty_groups() {
    assert_eq!(Parser::group_lines(vec![]), Vec::<Vec<String>>::new());
    assert_eq!(
        Parser::group_lines(owned(&["", "", ""])),
        Vec::<Vec<String>>::new()
    );
    assert_eq!(
        Parser::group_lines(owned(&["", "a", "", "", "b", "c", ""])),
        vec![owned(&["a"]), owned(&["b", "c"])]
    );
    assert_eq!(
        Parser::group_lines(owned(&["a", " ", "b"])),
        vec![owned(&["a", " ", "b"])]
    );
}

#[test]
fn regex_reports_a_pattern_that_does_not_compile() {
    let result: Result<Vec<usize>, LineError<()>> =
        Parser::parse_lines_with_regex(vec![], "(", |_| Ok(0));

    assert_eq!(result, Err(LineError::Pattern));
}

#[test]
fn regex_reports_the_first_line_that_does_not_match() {
    let result: Result<Vec<usize>, LineError<()>> =
        Parser::parse_lines_with_regex(owned(&["a1", "b2", "a3", "c4"]), "^a(\\d)", |groups| {
            Ok(groups.len())
        });

    assert_eq!(result, Err(LineError::Mismatch(1)));
}

#[test]
fn regex_reports_the_first_group_that_took_no_part() {
    let result: Result<Vec<usize>, LineError<()>> = Parser::parse_lines_with_regex(
        owned(&["a1b", "ab", "b"]),
        "(a)?(\\d)?(b)",
        |groups| Ok(groups.len()),
    );

    assert_eq!(result, Err(LineError::MissingGroup(1, 1)));
}

#[test]
fn regex_hands_the_groups_without_the_whole_match() {
    let result: Result<Vec<Vec<String>>, LineError<()>> = Parser::parse_lines_with_regex(
        owned(&["move 3 from 1 to 2", "x move 10 from 7 to 8 y"]),
        "move (\\d+) from (\\d+) to (\\d+)",
        |groups| Ok(groups),
    );

    assert_eq!(
        result,
        Ok(vec![owned(&["3", "1", "2"]), owned(&["10", "7", "8"])])
    );
}

#[test]
fn regex_without_groups_hands_no_groups() {
    let result: Result<Vec<usize>, LineError<()>> =
        Parser::parse_lines_with_regex(owned(&["abc", "b"]), "b", |groups| Ok(groups.len()));

    assert_eq!(result, Ok(vec![0, 0]));
}

#[test]
fn regex_hands_on_what_the_decoder_refuses() {
    let result: Result<Vec<usize>, LineError<String>> =
        Parser::parse_lines_with_regex(owned(&["1", "22", "333"]), "(\\d+)", |groups| {
            if groups[0].len() < 2 {
                Ok(groups[0].len())
            } else {
                Err(groups[0].clone())
            }
        });

    assert_eq!(result, Err(LineError::Decode("22".to_string())));
}

#[test]
fn grid_of_no_lines_or_of_an_empty_first_line_is_refused() {
    assert!(matches!(
        Parser::parse_lines_to_grid(vec![]),
        Err(GridError::Empty)
    ));
    assert!(matches!(
        Parser::parse_lines_to_grid(owned(&[""])),
        Err(GridError::EmptyFirstRow)
    ));
    assert!(matches!(
        Parser::parse_lines_to_grid_str(&[]),
        Err(GridError::Empty)
    ));
    assert!(matches!(
        Parser::parse_lines_to_grid_str(&[""]),
        Err(GridError::EmptyFirstRow)
    ));
}

#[test]
fn grid_takes_characters_and_not_bytes() {
    let grid = Parser::parse_lines_to_grid_str(&["é→", "ab"]).unwrap();

    assert_eq!(grid.rows(), 2);
    assert_eq!(grid.cols(), 2);
    assert_eq!(grid[Point { x: 1, y: 0 }], '→');
    assert_eq!(grid.row_as_string(0), Some("é→".to_string()));
    assert_eq!(grid.col_as_string(0), Some("éa".to_string()));
}

#[test]
fn decode_line_reports_a_missing_pattern() {
    assert_eq!(
        Parser::decode_line_to_unsigned_integer("Age: 42", "age"),
        Err(ParseError::NotFound)
    );
    assert_eq!(
        Parser::decode_line_to_signed_integer("", "x"),
        Err(ParseError::NotFound)
    );
    assert_eq!(
        Parser::decode_line_to_string("Name", "Name:"),
        Err(ParseError::NotFound)
    );
}

#[test]
fn decode_line_reports_what_is_no_number() {
    assert_eq!(
        Parser::decode_line_to_unsigned_integer("Age: -42", "Age:"),
        Err(ParseError::NotANumber)
    );
    assert_eq!(
        Parser::decode_line_to_unsigned_integer("Age: 42 years", "Age:"),
        Err(ParseError::NotANumber)
    );
    assert_eq!(
        Parser::decode_line_to_unsigned_integer("Age:", "Age:"),
        Err(ParseError::NotANumber)
    );
    assert_eq!(
        Parser::decode_line_to_signed_integer("Price: - 100", "Price:"),
        Err(ParseError::NotANumber)
    );
    assert_eq!(
        Parser::decode_line_to_signed_integer("Price: 1e3", "Price:"),
        Err(ParseError::NotANumber)
    );
}

#[test]
fn decode_line_reads_behind_the_first_occurrence() {
    assert_eq!(
        Parser::decode_line_to_string("a=b=c", "="),
        Ok("b=c".to_string())
    );
    assert_eq!(
        Parser::decode_line_to_unsigned_integer("x: 1 x: 2", "x: 1 x:"),
        Ok(2)
    );
    assert_eq!(
        Parser::decode_line_to_signed_integer("aaab+7", "aab"),
        Ok(7)
    );
    assert_eq!(
        Parser::decode_line_to_string("  padded \t", ""),
        Ok("padded".to_string())
    );
    assert_eq!(
        Parser::decode_line_to_string("é: \u{3000}ü\u{00a0}", "é:"),
        Ok("ü".to_string())
    );
}

#[test]
fn decode_line_agrees_with_find_and_trim_of_the_standard_library() {
    let lines = ["Name: N/A", "::", "a::b::c", "\t x \n", "", "ééé", "abcabc"];
    let patterns = [":", "::", "", "é", "bc", "abcabcabc", " "];

    for line in lines {
        for pattern in patterns {
            let expected = line
                .find(pattern)
                .map(|at| line[at + pattern.len()..].trim().to_string())
                .ok_or(ParseError::NotFound);

            assert_eq!(
                Parser::decode_line_to_string(line, pattern),
                expected,
                "line: {line:?}, pattern: {pattern:?}"
            );
        }
    }
}
