use font_atlas::fnt::{
    consume_until_pat, consume_until_space, parse, parse_array, parse_line, parse_string,
    try_split_equality, FntChar, FntCommon, FntError, FntFile, FntInfo, FntPage, LineError,
};

const M5X7: &str = "info face=\"m5x7\" size=16 bold=0 italic=0 charset=\"\" unicode=1 stretchH=100 smooth=0 aa=1 padding=0,0,0,0 spacing=1,1
common lineHeight=16 base=12 scaleW=128 scaleH=64 pages=1 packed=0
page id=0 file=\"m5x7.png\"
chars count=6
char id=32      x=0    y=0    width=0    height=0    xoffset=0    yoffset=12   xadvance=5    page=0    chnl=15
char id=33      x=1    y=1    width=1    height=7    xoffset=0    yoffset=5    xadvance=2    page=0    chnl=15
char id=65      x=3    y=1    width=5    height=7    xoffset=0    yoffset=5    xadvance=6    page=0    chnl=15
char id=66      x=9    y=1    width=5    height=7    xoffset=0    yoffset=5    xadvance=6    page=0    chnl=15
char id=103     x=15   y=1    width=5    height=9    xoffset=0    yoffset=5    xadvance=6    page=0    chnl=15
char id=106     x=21   y=1    width=4    height=10   xoffset=-1   yoffset=4    xadvance=4    page=0    chnl=15
kernings count=0
";

#[test]
fn test_consume_until_space() {
    let line = "char id=0       x=0    y=0    width=7    height=13   xoffset=-1   yoffset=-1";

    let (lhs, line) = consume_until_space(line);
    assert_eq!(lhs, "char");
    let (lhs, line) = consume_until_space(line);
    assert_eq!(lhs, "id=0");
    let (lhs, line) = consume_until_space(line);
    assert_eq!(lhs, "x=0");
    let (lhs, line) = consume_until_space(line);
    assert_eq!(lhs, "y=0");
    let (lhs, line) = consume_until_space(line);
    assert_eq!(lhs, "width=7");
    let (lhs, line) = consume_until_space(line);
    assert_eq!(lhs, "height=13");
    let (lhs, line) = consume_until_space(line);
    assert_eq!(lhs, "xoffset=-1");
    let (lhs, line) = consume_until_space(line);
    assert_eq!(lhs, "yoffset=-1");

    assert!(line.is_empty());
}

#[test]
fn test_parse_file() {
    let test_file = M5X7;

    let _ = FntFile::try_parse(test_file).unwrap();
}

#[test]
fn parsed_file_holds_every_line() {
    let file = FntFile::try_parse(M5X7).unwrap();
    assert_eq!(file.info.face, "m5x7");
    assert_eq!(file.info.size, 16);
    assert_eq!(file.info.charset, "");
    assert_eq!(file.info.unicode, 1);
    assert_eq!(file.info.stretch_h, 100);
    assert_eq!(file.info.aa, 1);
    assert_eq!(file.info.padding, [0, 0, 0, 0]);
    assert_eq!(file.info.spacing, [1, 1]);
    assert_eq!(file.common.line_height, 16);
    assert_eq!(file.common.base, 12);
    assert_eq!(file.common.scale_w, 128);
    assert_eq!(file.common.scale_h, 64);
    assert_eq!(file.common.num_pages, 1);
    assert_eq!(file.pages.len(), 1);
    assert_eq!(file.pages[0].id, 0);
    assert_eq!(file.pages[0].file, "m5x7.png");
    assert_eq!(file.chars.len(), 6);
    assert_eq!(
        file.chars[5],
        FntChar {
            id: 106,
            x: 21,
            y: 1,
            width: 4,
            height: 10,
            x_offset: -1,
            y_offset: 4,
            x_advance: 4,
            page: 0,
            chnl: 15,
        }
    );
}

#[test]
fn lines_may_end_with_carriage_return() {
    let file = FntFile::try_parse("page id=3 file=\"a.png\"\r\nchar id=7 x=2\r\n").unwrap();
    assert_eq!(file.pages[0].id, 3);
    assert_eq!(file.pages[0].file, "a.png");
    assert_eq!(file.chars[0].id, 7);
    assert_eq!(file.chars[0].x, 2);
}

#[test]
fn carriage_return_without_line_feed_stays() {
    let result = FntFile::try_parse("char id=1\r");
    assert_eq!(result.unwrap_err(), FntError { line: 1, cause: LineError::InvalidNumber });
    let result = FntFile::try_parse("char id=1\r\r\n");
    assert_eq!(result.unwrap_err(), FntError { line: 1, cause: LineError::InvalidNumber });
    let result = FntFile::try_parse("\n");
    assert_eq!(result.unwrap_err(), FntError { line: 1, cause: LineError::UnknownKeyword });
}

#[test]
fn lines_are_those_of_the_standard_library() {
    let endings = ["", "\n", "\r\n", "\r", "\r\r\n", "\n\n", "\n\r\n"];
    for first in endings {
        for second in endings {
            let text = format!("char id=1{first}char id=2{second}");
            let expected: Result<usize, usize> = text
                .lines()
                .enumerate()
                .map(|(number, line)| match line {
                    "char id=1" | "char id=2" => Ok(1),
                    _ => Err(number + 1),
                })
                .sum();
            match FntFile::try_parse(&text) {
                Ok(file) => assert_eq!(Ok(file.chars.len()), expected),
                Err(error) => assert_eq!(Err(error.line), expected),
            }
        }
    }
}

#[test]
fn last_line_needs_no_ending() {
    let file = FntFile::try_parse("char id=1\nchar id=2").unwrap();
    assert_eq!(file.chars.len(), 2);
    assert_eq!(file.chars[1].id, 2);
}

#[test]
fn empty_text_is_an_empty_description() {
    let file = FntFile::try_parse("").unwrap();
    assert!(file.pages.is_empty());
    assert!(file.chars.is_empty());
    assert_eq!(file.info.face, "");
    assert_eq!(file.common, FntCommon::default());
}

#[test]
fn unknown_keyword_names_its_line() {
    let result = FntFile::try_parse("char id=1\nglyph id=2\nchar id=3");
    assert_eq!(result.unwrap_err(), FntError { line: 2, cause: LineError::UnknownKeyword });
}

#[test]
fn empty_line_is_an_unknown_keyword() {
    let result = FntFile::try_parse("char id=1\n\nchar id=3");
    assert_eq!(result.unwrap_err(), FntError { line: 2, cause: LineError::UnknownKeyword });
}

#[test]
fn first_refused_line_is_reported() {
    let result = FntFile::try_parse("char id=1\nchar id=x\nglyph");
    assert_eq!(result.unwrap_err(), FntError { line: 2, cause: LineError::InvalidNumber });
}

#[test]
fn unknown_attribute_is_refused() {
    assert_eq!(FntChar::try_parse("id=1 colour=2").unwrap_err(), LineError::UnknownAttribute);
    assert_eq!(FntPage::try_parse("x=1").unwrap_err(), LineError::UnknownAttribute);
    assert_eq!(FntInfo::try_parse("outline=1").unwrap_err(), LineError::UnknownAttribute);
    assert_eq!(FntCommon::try_parse("alphaChnl=1").unwrap_err(), LineError::UnknownAttribute);
}

#[test]
fn later_attribute_replaces_earlier() {
    let glyph = FntChar::try_parse("id=1 id=2").unwrap();
    assert_eq!(glyph.id, 2);
}

#[test]
fn words_without_value_are_passed_over() {
    let glyph = FntChar::try_parse("id=4 loose x= y=9").unwrap();
    assert_eq!(glyph.id, 4);
    assert_eq!(glyph.x, 0);
    assert_eq!(glyph.y, 9);
}

#[test]
fn page_needs_quotes_around_file() {
    assert_eq!(FntPage::try_parse("file=a.png").unwrap_err(), LineError::MissingOpeningQuote);
    assert_eq!(FntPage::try_parse("file=\"a.png").unwrap_err(), LineError::MissingClosingQuote);
    assert_eq!(FntPage::try_parse("file=\"").unwrap_err(), LineError::MissingClosingQuote);
    assert_eq!(FntPage::try_parse("file=\"\"").unwrap().file, "");
}

#[test]
fn info_reads_lists() {
    let info = FntInfo::try_parse("padding=1,2,3,4 spacing=-5,6").unwrap();
    assert_eq!(info.padding, [1, 2, 3, 4]);
    assert_eq!(info.spacing, [-5, 6]);
    assert_eq!(FntInfo::try_parse("padding=1,2,3").unwrap_err(), LineError::InvalidArray);
    assert_eq!(FntInfo::try_parse("padding=1,2,3,4,5").unwrap_err(), LineError::InvalidArray);
    assert_eq!(FntInfo::try_parse("spacing=1,b").unwrap_err(), LineError::InvalidNumber);
}

#[test]
fn common_reads_measures() {
    let common = FntCommon::try_parse("lineHeight=16 base=12 scaleW=256 scaleH=128 pages=2 packed=1")
        .unwrap();
    assert_eq!(
        common,
        FntCommon { line_height: 16, base: 12, scale_w: 256, scale_h: 128, num_pages: 2, packed: 1 }
    );
}

#[test]
fn numbers_follow_their_type() {
    assert_eq!(parse::<u32>("0"), Ok(0));
    assert_eq!(parse::<u32>("+17"), Ok(17));
    assert_eq!(parse::<u32>("4294967295"), Ok(4294967295));
    assert_eq!(parse::<u32>("4294967296"), Err(LineError::InvalidNumber));
    assert_eq!(parse::<u32>("-1"), Err(LineError::InvalidNumber));
    assert_eq!(parse::<u32>("-0"), Err(LineError::InvalidNumber));
    assert_eq!(parse::<i32>("-0"), Ok(0));
    assert_eq!(parse::<i32>("-2147483648"), Ok(-2147483648));
    assert_eq!(parse::<i32>("2147483647"), Ok(2147483647));
    assert_eq!(parse::<i32>("2147483648"), Err(LineError::InvalidNumber));
    assert_eq!(parse::<i32>("-2147483649"), Err(LineError::InvalidNumber));
    assert_eq!(parse::<i32>("00012"), Ok(12));
    assert_eq!(parse::<u8>("255"), Ok(255));
    assert_eq!(parse::<u8>("256"), Err(LineError::InvalidNumber));
    assert_eq!(parse::<u8>("99999999999999999999999"), Err(LineError::InvalidNumber));
    assert_eq!(parse::<i32>(""), Err(LineError::InvalidNumber));
    assert_eq!(parse::<i32>("+"), Err(LineError::InvalidNumber));
    assert_eq!(parse::<i32>("-"), Err(LineError::InvalidNumber));
    assert_eq!(parse::<i32>("1 "), Err(LineError::InvalidNumber));
    assert_eq!(parse::<i32>("1_0"), Err(LineError::InvalidNumber));
    assert_eq!(parse::<i32>("+-1"), Err(LineError::InvalidNumber));
}

#[test]
fn numbers_agree_with_the_standard_library() {
    let samples = [
        "0", "7", "+7", "-7", "007", "255", "256", "-128", "65536", "2147483647", "2147483648",
        "-2147483648", "-2147483649", "4294967295", "4294967296", "", "+", "-", "--1", "1-", "a",
        "1a", " 1", "1.0", "٣",
    ];
    for sample in samples {
        assert_eq!(parse::<u8>(sample).ok(), sample.parse::<u8>().ok());
        assert_eq!(parse::<u32>(sample).ok(), sample.parse::<u32>().ok());
        assert_eq!(parse::<i32>(sample).ok(), sample.parse::<i32>().ok());
    }
}

#[test]
fn list_may_end_with_a_comma() {
    assert_eq!(parse_array::<2>("3,4,"), Ok([3, 4]));
    assert_eq!(parse_array::<2>("3,4,,"), Err(LineError::InvalidArray));
    assert_eq!(parse_array::<2>("3,,4"), Err(LineError::InvalidNumber));
    assert_eq!(parse_array::<2>(""), Err(LineError::InvalidArray));
    assert_eq!(parse_array::<0>(""), Ok([]));
    assert_eq!(parse_array::<0>("1"), Err(LineError::InvalidArray));
}

#[test]
fn text_stands_between_quotes() {
    assert_eq!(parse_string("\"m5x7\""), Ok("m5x7".to_string()));
    assert_eq!(parse_string("\"a\"b\""), Ok("a\"b".to_string()));
    assert_eq!(parse_string("m5x7\""), Err(LineError::MissingOpeningQuote));
    assert_eq!(parse_string(""), Err(LineError::MissingOpeningQuote));
    assert_eq!(parse_string("\"m5x7"), Err(LineError::MissingClosingQuote));
}

#[test]
fn splitting_at_a_character() {
    assert_eq!(consume_until_pat("1,2,3", ','), ("1", "2,3"));
    assert_eq!(consume_until_pat("123", ','), ("123", ""));
    assert_eq!(consume_until_pat(",", ','), ("", ""));
    assert_eq!(consume_until_pat("é,ü", ','), ("é", "ü"));
}

#[test]
fn space_splitting_drops_following_whitespace() {
    assert_eq!(consume_until_space("a \t\u{3000} b c"), ("a", "b c"));
    assert_eq!(consume_until_space("abc"), ("abc", ""));
    assert_eq!(consume_until_space(" abc"), ("", "abc"));
    assert_eq!(consume_until_space("a\tb c"), ("a\tb", "c"));
}

#[test]
fn whitespace_agrees_with_the_standard_library() {
    for code in 0u32..0x3100 {
        if let Some(c) = char::from_u32(code) {
            let text = format!("x {}y", c);
            let (_, rest) = consume_until_space(&text);
            assert_eq!(rest.len() == 1, c.is_whitespace());
        }
    }
}

#[test]
fn equality_splits_at_the_first_sign() {
    assert_eq!(try_split_equality("id=5"), Some(("id", "5")));
    assert_eq!(try_split_equality("a=b=c"), Some(("a", "b=c")));
    assert_eq!(try_split_equality("=5"), Some(("", "5")));
    assert_eq!(try_split_equality("id="), None);
    assert_eq!(try_split_equality("id"), None);
    assert_eq!(try_split_equality(""), None);
}

#[test]
fn line_gives_its_attributes_in_order() {
    assert_eq!(parse_line("id=5   x=-1 loose y= z=3"), vec![("id", "5"), ("x", "-1"), ("z", "3")]);
    assert_eq!(parse_line(""), Vec::<(&str, &str)>::new());
    assert_eq!(parse_line("   "), Vec::<(&str, &str)>::new());
}
