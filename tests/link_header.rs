use nuts::error::ErrorKind;
use nuts::link_header::{
    get_arg, get_param, link_header, parse_argument, parse_u32, parse_u64, parse_url, LinkHeader,
    LinkHeaderType,
};
use nuts::text::chars_of;

#[test]
fn link_header_test_parse_argument() {
    let arg = "rel=\"thing\"";
    let (key, val, _) = parse_argument(arg, &chars_of(arg), 0).unwrap();
    assert_eq!((key.as_str(), val.as_str()), ("rel", "thing"));
}

#[test]
fn header_link_test_parse_argument() {
    let arg = "rel=\"raar\"";
    let (key, val, rest) = parse_argument(arg, &chars_of(arg), 0).unwrap();
    println!("{:?}", (&key, &val));
    assert_eq!((key.as_str(), val.as_str(), rest), ("rel", "raar", arg.len()));
}

#[test]
fn link_header_test_parse_url() {
    let link = "<https://api.github.com/repositories/x/releases?page=1&per_page=5>";
    let (url, _) = parse_url(link, &chars_of(link)).unwrap();
    assert_eq!(
        "https://api.github.com/repositories/x/releases?page=1&per_page=5",
        url
    );
}

#[test]
fn header_link_test_parse_url() {
    let link = "<https://api.github.com/repositories/x/releases?page=1&per_page=5>";
    let (url, rest) = parse_url(link, &chars_of(link)).unwrap();
    println!("{:?}, {:?}", rest, url);
    assert_eq!(rest, link.len());
}

fn header_cases() -> Vec<(&'static str, LinkHeader)> {
    vec![
        (
            "<https://api.github.com/repositories/x/releases?page=1&per_page=5>; rel=\"first\"",
            LinkHeader {
                url: "https://api.github.com/repositories/x/releases?page=1&per_page=5".to_string(),
                page: 1,
                per_page: 5,
                rel: LinkHeaderType::First,
            },
        ),
        (
            "<https://api.github.com/repositories/x/releases?page=2&per_page=5>; test=\"raar\"; rel=\"next\"",
            LinkHeader {
                url: "https://api.github.com/repositories/x/releases?page=2&per_page=5".to_string(),
                page: 2,
                per_page: 5,
                rel: LinkHeaderType::Next,
            },
        ),
    ]
}

#[test]
fn link_header_test_parse_header_link() {
    for (link, expect) in header_cases() {
        let res = link_header(link).unwrap();
        assert_eq!(res, expect);
    }
}

#[test]
fn header_link_test_parse_header_link() {
    for (link, expect) in header_cases() {
        assert_eq!(link_header(link), Ok(expect));
    }
}

#[test]
fn whitespace_is_tolerated() {
    let h = link_header("  <  https://x.test/r?per_page=30&page=4 >  ;  rel = \"last\" ; a=\"b\"  ")
        .unwrap();
    assert_eq!(h.url, "https://x.test/r?per_page=30&page=4");
    assert_eq!((h.page, h.per_page, h.rel), (4, 30, LinkHeaderType::Last));
    let h = link_header("<https://x.test/r?page=1&per_page=2>;rel=\"prev\"").unwrap();
    assert_eq!(h.rel, LinkHeaderType::Prev);
}

#[test]
fn malformed_entries_fail() {
    let bad = [
        "",
        "https://x.test/r?page=1&per_page=2; rel=\"next\"",
        "<https://x.test/r?page=1&per_page=2>",
        "<https://x.test/r?page=1&per_page=2>; foo=\"bar\"",
        "<https://x.test/r?page=1&per_page=2>; rel=next",
        "<https://x.test/r?page=1&per_page=2>; rel=\"next\" junk",
        "<https://x.test/r?per_page=2>; rel=\"next\"",
        "<https://x.test/r?page=x&per_page=2>; rel=\"next\"",
        "<not a url>; rel=\"next\"",
        "<>; rel=\"next\"",
    ];
    for b in bad {
        assert_eq!(link_header(b), Err(ErrorKind::InvalidLinkHeader), "{}", b);
    }
}

#[test]
fn unknown_relation() {
    let h = link_header("<https://x.test/r?page=1&per_page=2>; rel=\"other\"").unwrap();
    assert_eq!(h.rel, LinkHeaderType::Unknown);
}

#[test]
fn argument_lookup_takes_the_first() {
    let args = vec![
        ("test".to_string(), "raar".to_string()),
        ("rel".to_string(), "next".to_string()),
        ("rel".to_string(), "prev".to_string()),
    ];
    assert_eq!(get_arg(&args, "rel"), Some(LinkHeaderType::Next));
    assert_eq!(get_arg(&args, "test"), Some(LinkHeaderType::Unknown));
    assert_eq!(get_arg(&args, "none"), None);
    let q = vec![("page".to_string(), "12".to_string())];
    assert_eq!(get_param(&q, "page"), Some(12));
    assert_eq!(get_param(&q, "per_page"), None);
}

#[test]
fn numbers_read_like_std() {
    for s in ["0", "+5", "007", "4294967295", "4294967296", "", "+", "-1", "1a", " 1"] {
        assert_eq!(parse_u32(&s.to_string()), s.parse::<u32>().ok(), "{}", s);
    }
    for s in ["18446744073709551615", "18446744073709551616", "99999999999999999999"] {
        assert_eq!(parse_u64(&s.to_string()), s.parse::<u64>().ok(), "{}", s);
    }
}
