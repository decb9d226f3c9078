use proxyzms::node_notes::{parse, row_title, split_comment, NodeNote};

const YAML: &str = r#"
mixed-port: 7890
proxies:
  - name: "Apollo"    # 甲骨文 · 日本大阪 · IPv6
    type: hysteria2
    password: "aa#bb"
    server: apollo.example.com

  # 亚马逊 · 日本东京 · IPv4 / IPv6
  - name: "Venus"
    type: hysteria2

  # 以下 socks5 落地经 Venus 中转

  - name: "US-PaloAlto"   # 住宅 IP   美国帕洛阿托
    type: socks5

  - { name: JP-Tokyo, type: socks5 }   # 住宅 IP | 日本东京
  - name: "NoNote"
    type: socks5
  - name: "NoVendor"   # · 日本东京 · IPv4
    type: socks5
  -
    name: "Blocky"    # 供应商 · 地区 · IPv4 · 备用 · 多余
proxy-groups:
  - { name: 阿波罗, type: select }   # 这条不该被解析
rules:
  - 'DOMAIN,x,DIRECT'
"#;

#[test]
fn parses_notes() {
    let m = parse(YAML);
    assert_eq!(m.get("Apollo").unwrap().columns(), ["甲骨文", "日本大阪", "IPv6"]);
    assert_eq!(m.get("Venus").unwrap().columns(), ["亚马逊", "日本东京", "IPv4 / IPv6"]);
    // a trailing comment is cut at runs of two or more spaces
    assert_eq!(m.get("US-PaloAlto").unwrap().columns(), ["住宅 IP", "美国帕洛阿托"]);
    // flow style and `|` separators
    assert_eq!(m.get("JP-Tokyo").unwrap().columns(), ["住宅 IP", "日本东京"]);
    // name on a line of its own
    assert_eq!(m.get("Blocky").unwrap().columns(), ["供应商", "地区", "IPv4 · 备用 · 多余"]);
    // a leading separator keeps an empty placeholder column
    assert_eq!(m.get("NoVendor").unwrap().columns(), ["", "日本东京", "IPv4"]);
    assert_eq!(m.get("NoVendor").unwrap().text(), "日本东京 · IPv4");
    assert!(!m.contains_key("NoNote"));
    // a paragraph comment separated by a blank line is attached to nothing;
    // proxy-groups is not read
    assert!(!m.values().iter().any(|n| n.text().contains("中转")));
    assert!(!m.contains_key("阿波罗"));
}

#[test]
fn quoted_hash_is_not_a_comment() {
    let (code, comment) = split_comment(r#"    password: "aa#bb""#);
    assert!(code.contains("aa#bb"));
    assert_eq!(comment, None);
}

#[test]
fn hash_glued_to_a_value_is_not_a_comment() {
    let (code, comment) = split_comment("    password: pass#word");
    assert_eq!(code, "    password: pass#word");
    assert_eq!(comment, None);
    let (code, comment) = split_comment("  - name: a  ## note ##  ");
    assert_eq!(code, "  - name: a  ");
    assert_eq!(comment, Some("note ##".to_string()));
}

#[test]
fn note_accessors() {
    let m = parse("proxies:\n  - name: A # x · y\n");
    let n = m.get("A").unwrap();
    assert_eq!(n.parts(), 2);
    assert_eq!(n.col(0), "x");
    assert_eq!(n.col(1), "y");
    assert_eq!(n.col(2), "");
    assert_eq!(n.text(), "x · y");
}

#[test]
fn trailing_comment_wins_over_line_above() {
    let m = parse("proxies:\n  # above\n  - name: A # trailing\n");
    assert_eq!(m.get("A").unwrap().columns(), ["trailing"]);
}

#[test]
fn later_entry_replaces_earlier_note() {
    let m = parse("proxies:\n  - name: A # one\n  - name: A # two\n");
    assert_eq!(m.get("A").unwrap().columns(), ["two"]);
    assert_eq!(m.values().len(), 1);
}

#[test]
fn username_is_not_a_name() {
    let m = parse("proxies:\n  - { username: u, name: real } # note\n");
    assert!(m.contains_key("real"));
    assert!(!m.contains_key("u"));
}

#[test]
fn crlf_lines_and_tabs() {
    let m = parse("proxies:\r\n  - name: 'Q' # a\tb\r\n");
    assert_eq!(m.get("Q").unwrap().columns(), ["a", "b"]);
}

#[test]
fn every_note_has_one_to_three_columns() {
    let m = parse("proxies:\n  - name: A # 1 | 2 | 3 | 4 | | 5\n  - name: B # only\n");
    assert_eq!(m.get("A").unwrap().columns(), ["1", "2", "3 · 4 · 5"]);
    assert_eq!(m.get("B").unwrap().parts(), 1);
    for n in m.values() {
        assert!(n.parts() >= 1 && n.parts() <= 3);
    }
}

#[test]
fn separators_only_note_falls_back_to_wide_gaps() {
    let m = parse("proxies:\n  - name: A # · ·\n  - name: B #\n");
    assert_eq!(m.get("A").unwrap().columns(), ["· ·"]);
    assert!(!m.contains_key("B"));
}

#[test]
fn group_note_layout() {
    let m = parse(YAML);
    let names = |xs: &[&str]| xs.iter().map(|x| x.to_string()).collect::<Vec<String>>();
    assert!(m.any_noted(&names(&["NoNote", "Venus"])));
    assert!(!m.any_noted(&names(&["NoNote", "DIRECT"])));
    assert!(!m.any_noted(&Vec::new()));
    assert!(m.columnar(&names(&["NoNote", "Apollo"])));
    let single = parse("proxies:\n  - name: A # 只有一列\n");
    assert!(single.any_noted(&names(&["A"])));
    assert!(!single.columnar(&names(&["A", "B"])));
}

#[test]
fn row_titles() {
    let m = parse(YAML);
    assert_eq!(row_title("Apollo", m.get("Apollo").unwrap()), "Apollo · 甲骨文 · 日本大阪 · IPv6");
    assert_eq!(row_title("NoVendor", m.get("NoVendor").unwrap()), "NoVendor · 日本东京 · IPv4");
    assert_eq!(row_title("NoNote", &NodeNote::default()), "NoNote");
}

#[test]
fn one_value_per_noted_node() {
    assert_eq!(parse(YAML).values().len(), 6);
}

#[test]
fn values_hold_each_note_once() {
    let m = parse("proxies:\n  - name: A # same\n  - name: B # same\n  - name: C # other\n");
    let mut texts: Vec<String> = m.values().iter().map(|n| n.text()).collect();
    texts.sort();
    assert_eq!(texts, ["other", "same", "same"]);
}
