use phrustpam::extract::{parse_search, SearchResult};

fn ip_for(r: &SearchResult, host: &str) -> Option<String> {
    r.get(&host.to_string())
}

#[test]
fn no_markers_yields_empty_mapping() {
    let page = "<html>\n<td>host-a</td>\n<td>sep</td>\n<td class=\"name\">x</td>\n</html>\n".to_string();
    let r = parse_search(&page);
    assert_eq!(r.pairs().len(), 0);
}

#[test]
fn empty_page_yields_empty_mapping() {
    let r = parse_search(&String::new());
    assert_eq!(r.pairs().len(), 0);
}

#[test]
fn two_records_yield_two_pairs() {
    let page = concat_lines(&[
        "<tr>",
        "  <td class=\"ip\"><a href=\"/a\">10.0.0.1</a></td>",
        "  <td>sep</td>",
        "  <td>alpha</td>",
        "</tr>",
        "<tr>",
        "\t<td class=\"ip\"><a href=\"/b\">10.0.0.2</a></td>",
        "\t<td>sep</td>",
        "\t<td>beta</td>",
        "</tr>",
    ]);
    let r = parse_search(&page);
    assert_eq!(r.pairs().len(), 2);
    assert_eq!(ip_for(&r, "alpha"), Some("10.0.0.1".to_string()));
    assert_eq!(ip_for(&r, "beta"), Some("10.0.0.2".to_string()));
}

#[test]
fn parsing_twice_gives_identical_mappings() {
    let page = concat_lines(&[
        "<td class=\"ip\"><a href=\"x\">10.1.1.1</a></td>",
        "<td>-</td>",
        "<td>one</td>",
        "<td class=\"ip\"><a href=\"y\">10.1.1.2</a></td>",
        "<td>-</td>",
        "<td>two</td>",
    ]);
    let mut first = parse_search(&page).pairs();
    let mut second = parse_search(&page).pairs();
    first.sort();
    second.sort();
    assert_eq!(first, second);
    assert_eq!(first.len(), 2);
}

#[test]
fn duplicate_hostname_keeps_last_ip() {
    let page = concat_lines(&[
        "<td class=\"ip\"><a href=\"x\">10.0.0.1</a></td>",
        "<td>sep</td>",
        "<td>same</td>",
        "<td class=\"ip\"><a href=\"y\">10.0.0.9</a></td>",
        "<td>sep</td>",
        "<td>same</td>",
    ]);
    let r = parse_search(&page);
    assert_eq!(r.pairs().len(), 1);
    assert_eq!(ip_for(&r, "same"), Some("10.0.0.9".to_string()));
}

#[test]
fn marker_on_last_line_yields_no_entry() {
    let page = concat_lines(&[
        "<td class=\"ip\"><a href=\"x\">10.0.0.1</a></td>",
        "<td>sep</td>",
        "<td>kept</td>",
        "<td class=\"ip\"><a href=\"y\">10.0.0.2</a></td>",
    ]);
    let r = parse_search(&page);
    assert_eq!(r.pairs().len(), 1);
    assert_eq!(ip_for(&r, "kept"), Some("10.0.0.1".to_string()));
}

#[test]
fn marker_on_second_to_last_line_yields_no_entry() {
    let page = "<td class=\"ip\"><a href=\"y\">10.0.0.2</a></td>\n<td>sep</td>\n".to_string();
    let r = parse_search(&page);
    assert_eq!(r.pairs().len(), 0);
}

#[test]
fn end_to_end_single_record() {
    let page = "<td class=\"ip\"><a href=\"...\">10.0.0.5</a></td>\n<td>sep</td>\n<td>host-a</td>".to_string();
    let r = parse_search(&page);
    let pairs = r.pairs();
    assert_eq!(pairs, vec![("host-a".to_string(), "10.0.0.5".to_string())]);
}

#[test]
fn crlf_lines_are_trimmed() {
    let page = "<td class=\"ip\"><a href=\"q\">192.168.1.7</a></td>\r\n<td>sep</td>\r\n   <td>gw</td>  \r\n".to_string();
    let r = parse_search(&page);
    assert_eq!(ip_for(&r, "gw"), Some("192.168.1.7".to_string()));
    assert_eq!(ip_for(&r, "<td>gw</td>"), None);
}

#[test]
fn ip_without_anchor_is_text_after_last_bracket() {
    let page = "<td class=\"ip\">10.2.2.2\nskip\n<td>plain</td>\n".to_string();
    let r = parse_search(&page);
    assert_eq!(ip_for(&r, "plain"), Some("10.2.2.2".to_string()));
}

#[test]
fn hostname_tags_removed_verbatim() {
    let page = "<td class=\"ip\"><a>1.1.1.1</a>\nskip\n<td><b>bold</b></td><td>\n".to_string();
    let r = parse_search(&page);
    assert_eq!(ip_for(&r, "<b>bold</b>"), Some("1.1.1.1".to_string()));
}

#[test]
fn separator_line_is_skipped_even_when_a_marker() {
    let page = concat_lines(&[
        "<td class=\"ip\"><a>1.0.0.1</a></td>",
        "<td class=\"ip\"><a>1.0.0.2</a></td>",
        "<td>h</td>",
    ]);
    let r = parse_search(&page);
    assert_eq!(r.pairs(), vec![("h".to_string(), "1.0.0.1".to_string())]);
}

#[test]
fn insert_replaces_existing_hostname() {
    let mut r = SearchResult::new();
    r.insert("a".to_string(), "1".to_string());
    r.insert("b".to_string(), "2".to_string());
    r.insert("a".to_string(), "3".to_string());
    assert_eq!(r.pairs().len(), 2);
    assert_eq!(ip_for(&r, "a"), Some("3".to_string()));
    assert_eq!(ip_for(&r, "c"), None);
}

fn concat_lines(lines: &[&str]) -> String {
    let mut s = String::new();
    for l in lines {
        s.push_str(l);
        s.push('\n');
    }
    s
}
