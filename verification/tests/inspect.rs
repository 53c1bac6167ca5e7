//! Reading a raw key-value store: groups, scalars and how values are shown.

use s2s::inspect::{
    classify_tree, decode_scalar, decode_value, decode_value_from, entry_text,
    format_value_as_string, key_order, lines_of, program_type_name, value_text, ArrayItem,
    DisplayValue, NumberValue, Scalar, TreeGroup,
};
use s2s::text::{hex_byte_string, signed_decimal_string, str_is};

fn number(text: &str, integer: Option<i64>) -> DisplayValue {
    DisplayValue::Number(NumberValue { text: text.to_string(), integer })
}

fn classify(name: &str) -> (TreeGroup, String) {
    classify_tree(name)
}

#[test]
fn trees_are_grouped_by_their_names() {
    assert_eq!(classify("program_42"), (TreeGroup::Programs, "Program:42".to_string()));
    assert_eq!(classify("map_7"), (TreeGroup::Maps, "Map:7".to_string()));
    assert_eq!(
        classify("tc_dispatcher_eth0_1_2"),
        (TreeGroup::TcDispatchers, "TrafficControlDispatcher:eth0/1/2".to_string())
    );
    assert_eq!(
        classify("xdp_dispatcher_4_17"),
        (TreeGroup::XdpDispatchers, "XDPDispatcher:4/17".to_string())
    );
    assert_eq!(classify("__sled__default"), (TreeGroup::Store, "IMAGES".to_string()));
    assert_eq!(classify("12345"), (TreeGroup::KernelPrograms, "KernelProgram:12345".to_string()));
    assert_eq!(classify("images"), (TreeGroup::Miscellaneous, "Misc:images".to_string()));
}

#[test]
fn tree_names_at_the_edges() {
    assert_eq!(classify("program_"), (TreeGroup::Programs, "Program:".to_string()));
    assert_eq!(classify("program"), (TreeGroup::Miscellaneous, "Misc:program".to_string()));
    assert_eq!(classify("map_a_b"), (TreeGroup::Maps, "Map:a_b".to_string()));
    assert_eq!(classify("12a"), (TreeGroup::Miscellaneous, "Misc:12a".to_string()));
    // No character of the empty name fails to be numeric.
    assert_eq!(classify(""), (TreeGroup::KernelPrograms, "KernelProgram:".to_string()));
    // Numeric is wider than the ten digits.
    assert_eq!(classify("٣"), (TreeGroup::KernelPrograms, "KernelProgram:٣".to_string()));
    assert_eq!(classify("x٣"), (TreeGroup::Miscellaneous, "Misc:x٣".to_string()));
    assert_eq!(
        classify("xdp_dispatcher_é_ü"),
        (TreeGroup::XdpDispatchers, "XDPDispatcher:é/ü".to_string())
    );
    assert_eq!(
        classify("__sled__default_"),
        (TreeGroup::Miscellaneous, "Misc:__sled__default_".to_string())
    );
}

#[test]
fn group_titles() {
    assert_eq!(TreeGroup::Programs.title(), "Programs");
    assert_eq!(TreeGroup::Maps.title(), "Maps");
    assert_eq!(TreeGroup::TcDispatchers.title(), "Traffic Control Dispatchers");
    assert_eq!(TreeGroup::XdpDispatchers.title(), "XDP Dispatchers");
    assert_eq!(TreeGroup::Store.title(), "STORE");
    assert_eq!(TreeGroup::KernelPrograms.title(), "Kernel Programs");
    assert_eq!(TreeGroup::Miscellaneous.title(), "Miscellaneous");
}

#[test]
fn scalars_are_little_endian() {
    assert_eq!(decode_scalar(&[1, 0, 0, 0]), Some(Scalar::Int32(1)));
    assert_eq!(decode_scalar(&[0, 1, 0, 0]), Some(Scalar::Int32(256)));
    assert_eq!(decode_scalar(&[0xff, 0xff, 0xff, 0xff]), Some(Scalar::Int32(-1)));
    assert_eq!(decode_scalar(&[0, 0, 0, 0x80]), Some(Scalar::Int32(i32::MIN)));
    assert_eq!(decode_scalar(&[0xff, 0xff, 0xff, 0x7f]), Some(Scalar::Int32(i32::MAX)));
    assert_eq!(
        decode_scalar(&[0x15, 0xcd, 0x5b, 0x07, 0, 0, 0, 0]),
        Some(Scalar::Int64(123_456_789))
    );
    assert_eq!(decode_scalar(&[0xff; 8]), Some(Scalar::Int64(-1)));
    assert_eq!(decode_scalar(&[0, 0, 0, 0, 0, 0, 0, 0x80]), Some(Scalar::Int64(i64::MIN)));
    assert_eq!(
        decode_scalar(&[0xff, 0xff, 0xff, 0xff, 0xff, 0xff, 0xff, 0x7f]),
        Some(Scalar::Int64(i64::MAX))
    );
    for v in [0i32, 1, -1, 42, -42, i32::MAX, i32::MIN, 0x1234_5678] {
        assert_eq!(decode_scalar(&v.to_le_bytes()), Some(Scalar::Int32(v)));
    }
    for v in [0i64, 1, -1, i64::MAX, i64::MIN, 0x1234_5678_9abc_def0] {
        assert_eq!(decode_scalar(&v.to_le_bytes()), Some(Scalar::Int64(v)));
    }
}

#[test]
fn single_bytes_zero_and_one_are_booleans() {
    assert_eq!(decode_scalar(&[1]), Some(Scalar::Bool(true)));
    assert_eq!(decode_scalar(&[0]), Some(Scalar::Bool(false)));
    assert_eq!(decode_scalar(&[2]), None);
    assert_eq!(decode_scalar(&[]), None);
    assert_eq!(decode_scalar(&[1, 0]), None);
    assert_eq!(decode_scalar(&[0; 5]), None);
    assert_eq!(decode_scalar(&[0; 16]), None);
}

#[test]
fn program_types_have_their_kernel_names() {
    assert_eq!(program_type_name(0), "BPF_PROG_TYPE_UNSPEC");
    assert_eq!(program_type_name(1), "BPF_PROG_TYPE_SOCKET_FILTER");
    assert_eq!(program_type_name(2), "BPF_PROG_TYPE_KPROBE");
    assert_eq!(program_type_name(6), "BPF_PROG_TYPE_XDP");
    assert_eq!(program_type_name(17), "BPF_PROG_TYPE_RAW_TRACEPOINT");
    assert_eq!(program_type_name(24), "BPF_PROG_TYPE_RAW_TRACEPOINT_WRITABLE");
    assert_eq!(program_type_name(26), "BPF_PROG_TYPE_TRACING");
    assert_eq!(program_type_name(32), "BPF_PROG_TYPE_NETFILTER");
    assert_eq!(program_type_name(33), "Unknown");
    assert_eq!(program_type_name(-1), "Unknown");
    assert_eq!(program_type_name(i64::MAX), "Unknown");
    let names: Vec<&str> = (0..33).map(program_type_name).collect();
    assert!(names.iter().all(|n| n.starts_with("BPF_PROG_TYPE_")));
    let mut distinct = names.clone();
    distinct.sort();
    distinct.dedup();
    assert_eq!(distinct.len(), 33);
}

#[test]
fn values_are_shown_as_they_stand() {
    assert_eq!(format_value_as_string("k", &DisplayValue::Null, 0), "null");
    assert_eq!(format_value_as_string("k", &DisplayValue::Bool(true), 0), "true");
    assert_eq!(format_value_as_string("k", &DisplayValue::Bool(false), 0), "false");
    assert_eq!(format_value_as_string("k", &number("-12", Some(-12)), 0), "-12");
    assert_eq!(format_value_as_string("k", &number("1.5", None), 0), "1.5");
    assert_eq!(
        format_value_as_string("k", &DisplayValue::Text("plain text".to_string()), 0),
        "plain text"
    );
    assert_eq!(
        format_value_as_string("k", &DisplayValue::Object(Some("{\"a\":1}".to_string())), 0),
        "{\"a\":1}"
    );
    assert_eq!(
        format_value_as_string("my_key", &DisplayValue::Object(None), 0),
        "my_key: INVALID_JSON"
    );
}

#[test]
fn program_type_numbers_are_shown_by_name() {
    let key = "kernel_program_type";
    assert_eq!(format_value_as_string(key, &number("6", Some(6)), 0), "BPF_PROG_TYPE_XDP");
    assert_eq!(format_value_as_string(key, &number("99", Some(99)), 0), "Unknown");
    assert_eq!(format_value_as_string(key, &number("1.5", None), 0), "Unknown");
    // Only numbers are named, and only under that key.
    assert_eq!(format_value_as_string(key, &DisplayValue::Text("6".to_string()), 0), "6");
    assert_eq!(format_value_as_string("kernel_program_typ", &number("6", Some(6)), 0), "6");
}

#[test]
fn deep_values_are_elided() {
    let value = DisplayValue::Text("text".to_string());
    assert_eq!(format_value_as_string("k", &value, 5), "text");
    assert_eq!(format_value_as_string("k", &value, 6), "...");
    assert_eq!(format_value_as_string("kernel_program_type", &number("6", Some(6)), 6), "...");
    assert_eq!(format_value_as_string("k", &DisplayValue::Null, usize::MAX), "...");
}

#[test]
fn arrays_show_their_first_ten_elements_in_hex() {
    let show = |items: Vec<ArrayItem>| format_value_as_string("k", &DisplayValue::Array(items), 0);
    assert_eq!(show(vec![]), "[ ...] (0 bytes)");
    assert_eq!(show(vec![ArrayItem::Number(Some(255))]), "[FF ...] (1 bytes)");
    assert_eq!(
        show(vec![
            ArrayItem::Number(Some(0)),
            ArrayItem::Number(Some(10)),
            ArrayItem::Other,
            ArrayItem::Number(None),
            ArrayItem::Number(Some(4096)),
        ]),
        "[00 0A ? 00 1000 ...] (5 bytes)"
    );
    let ten: Vec<ArrayItem> = (0..10).map(|i| ArrayItem::Number(Some(i))).collect();
    assert_eq!(show(ten), "[00 01 02 03 04 05 06 07 08 09 ...] (10 bytes)");
    let many: Vec<ArrayItem> = (0..300).map(|i| ArrayItem::Number(Some(i * 16))).collect();
    assert_eq!(show(many), "[00 10 20 30 40 50 60 70 80 90 ...] (300 bytes)");
}

#[test]
fn hexadecimal_is_upper_case_and_two_digits_wide() {
    assert_eq!(hex_byte_string(0), "00");
    assert_eq!(hex_byte_string(9), "09");
    assert_eq!(hex_byte_string(10), "0A");
    assert_eq!(hex_byte_string(15), "0F");
    assert_eq!(hex_byte_string(16), "10");
    assert_eq!(hex_byte_string(0xab), "AB");
    assert_eq!(hex_byte_string(0xdead_beef), "DEADBEEF");
    assert_eq!(hex_byte_string(u64::MAX), "FFFFFFFFFFFFFFFF");
    for v in [0u64, 7, 31, 255, 256, 65_535, 1 << 40] {
        assert_eq!(hex_byte_string(v), format!("{:02X}", v));
    }
}

#[test]
fn signed_decimal_numerals() {
    for v in [0i64, 1, -1, 9, 10, -10, 12345, i32::MAX as i64, i32::MIN as i64, i64::MAX, i64::MIN]
    {
        assert_eq!(signed_decimal_string(v), v.to_string());
    }
    assert_eq!(signed_decimal_string(i64::MIN), "-9223372036854775808");
}

fn read(bytes: &[u8]) -> DisplayValue {
    let text = value_text(bytes);
    assert_eq!(text, String::from_utf8(bytes.to_vec()).ok());
    let document = match &text {
        Some(t) if t == "{\"a\": 12}" => {
            Some(DisplayValue::Object(Some("{\"a\":12}".to_string())))
        }
        Some(t) if t == "true" => Some(DisplayValue::Bool(true)),
        Some(t) if t == "17" => Some(number("17", Some(17))),
        _ => None,
    };
    let read = decode_value(bytes, document.clone());
    assert_eq!(read, decode_value_from(bytes, text, document));
    read
}

#[test]
fn raw_values_are_read_by_length_first() {
    assert_eq!(read(&[42, 0, 0, 0]), number("42", Some(42)));
    assert_eq!(read(&[0xff, 0xff, 0xff, 0xff]), number("-1", Some(-1)));
    assert_eq!(read(&[0, 0, 0, 0x80]), number("-2147483648", Some(i32::MIN as i64)));
    assert_eq!(read(&[0, 0, 0, 0, 0, 0, 0, 0x80]), number("-9223372036854775808", Some(i64::MIN)));
    assert_eq!(read(&[1, 0, 0, 0, 0, 0, 0, 0]), number("1", Some(1)));
    // Four bytes are a number even when they spell a document.
    assert_eq!(read(b"true"), number("1702195828", Some(1702195828)));
    assert_eq!(read(&[1]), DisplayValue::Bool(true));
    assert_eq!(read(&[0]), DisplayValue::Bool(false));
}

#[test]
fn other_raw_values_are_documents_texts_or_bytes() {
    assert_eq!(read(b"{\"a\": 12}"), DisplayValue::Object(Some("{\"a\":12}".to_string())));
    // Eight bytes are a number even when they spell a document.
    assert_eq!(
        read(b"{\"a\": 1}"),
        number("9021026962656797307", Some(9021026962656797307))
    );
    assert_eq!(read(b"17"), number("17", Some(17)));
    assert_eq!(read(b"hello"), DisplayValue::Text("hello".to_string()));
    assert_eq!(read(b""), DisplayValue::Text(String::new()));
    assert_eq!(
        read(&[0xff, 0xfe, 0x00]),
        DisplayValue::Array(vec![
            ArrayItem::Number(Some(255)),
            ArrayItem::Number(Some(254)),
            ArrayItem::Number(Some(0)),
        ])
    );
    assert_eq!(
        format_value_as_string("k", &read(&[0xff, 0xfe, 0x00]), 0),
        "[FF FE 00 ...] (3 bytes)"
    );
    // A document that was handed in for what is no text is not looked at.
    assert_eq!(
        decode_value(&[0xff], Some(DisplayValue::Null)),
        DisplayValue::Array(vec![ArrayItem::Number(Some(255))])
    );
    assert_eq!(
        decode_value_from(&[0xff], None, Some(DisplayValue::Null)),
        DisplayValue::Array(vec![ArrayItem::Number(Some(255))])
    );
    assert_eq!(decode_value(b"x", Some(DisplayValue::Null)), DisplayValue::Null);
    assert_eq!(decode_value(b"x", None), DisplayValue::Text("x".to_string()));
    assert_eq!(
        decode_value_from(b"x", Some("y".to_string()), None),
        DisplayValue::Text("y".to_string())
    );
}

#[test]
fn texts_compare_by_content() {
    assert!(str_is("abc", "abc"));
    assert!(str_is("", ""));
    assert!(!str_is("abc", "abd"));
    assert!(!str_is("abc", "ab"));
}

#[test]
fn bytes_are_a_text_only_as_valid_utf8() {
    assert_eq!(value_text(b"hello"), Some("hello".to_string()));
    assert_eq!(value_text(b""), Some(String::new()));
    assert_eq!(value_text("é/ü".as_bytes()), Some("é/ü".to_string()));
    assert_eq!(value_text(&[0xff]), None);
    assert_eq!(value_text(&[0xc3]), None);
    assert_eq!(value_text(&[b'a', 0x80, b'b']), None);
    assert_eq!(decode_value("é/ü".as_bytes(), None), DisplayValue::Text("é/ü".to_string()));
    assert_eq!(
        decode_value(&[0xc3], None),
        DisplayValue::Array(vec![ArrayItem::Number(Some(0xc3))])
    );
}

const TEXTS: [&str; 18] = [
    "",
    "a",
    "a\n",
    "a\nb",
    "a\r\nb",
    "a\r",
    "a\rb\nc",
    "\n",
    "\r\n",
    "\r",
    "\n\n",
    "a\n\nb\n",
    "a\n\r\nb\r",
    "\r\r\n",
    "{\n  \"a\": 1,\n  \"b\": [\n    2\n  ]\n}",
    "é\nü\r\n",
    "no line feed at all",
    "\n\nlast",
];

#[test]
fn lines_are_the_lines_of_the_standard_library() {
    for text in TEXTS {
        let expected: Vec<String> = text.lines().map(|l| l.to_string()).collect();
        assert_eq!(lines_of(text), expected, "{:?}", text);
    }
    assert_eq!(lines_of("a\r\nb\n\nc\r"), vec!["a", "b", "", "c\r"]);
    assert!(lines_of("").is_empty());
    assert_eq!(lines_of("\n"), vec![""]);
}

/// What printing the entry line by line writes.
fn printed(key: &str, shown: &str, indent: usize) -> String {
    let mut out = format!("{:indent$}{}: ", "", key, indent = indent);
    let mut first_line = true;
    for line in shown.lines() {
        if first_line {
            out.push_str(&format!("{}\n", line));
            first_line = false;
        } else {
            out.push_str(&format!("{:indent$}{}\n", "", line, indent = indent + 4));
        }
    }
    out
}

#[test]
fn entries_are_laid_out_line_below_line() {
    assert_eq!(entry_text("key", "value", 4), "    key: value\n");
    assert_eq!(entry_text("key", "", 4), "    key: ");
    assert_eq!(entry_text("key", "value", 0), "key: value\n");
    assert_eq!(
        entry_text("map", "{\n  \"a\": 1\n}", 4),
        "    map: {\n          \"a\": 1\n        }\n"
    );
    assert_eq!(entry_text("k", "a\r\nb\n", 2), "  k: a\n      b\n");
    for text in TEXTS {
        for indent in [0usize, 1, 4, 9] {
            assert_eq!(entry_text("key", text, indent), printed("key", text, indent));
        }
    }
}

fn order_of(keys: &[&str]) -> Vec<usize> {
    key_order(&keys.iter().map(|k| k.to_string()).collect())
}

#[test]
fn entries_are_ordered_by_key() {
    assert_eq!(order_of(&[]), Vec::<usize>::new());
    assert_eq!(order_of(&["only"]), vec![0]);
    assert_eq!(order_of(&["b", "a", "c"]), vec![1, 0, 2]);
    assert_eq!(order_of(&["name", "id", "kernel_tag", "id2", ""]), vec![4, 1, 3, 2, 0]);
    // A key sorts before the keys it begins, and upper case before lower.
    assert_eq!(order_of(&["ab", "a", "B", "abc", "b"]), vec![2, 1, 0, 3, 4]);
    // Keys are compared byte by byte.
    assert_eq!(order_of(&["é", "z", "a", "ü"]), vec![2, 1, 0, 3]);
}

#[test]
fn entries_with_the_same_key_keep_their_order() {
    assert_eq!(order_of(&["k", "k", "k"]), vec![0, 1, 2]);
    assert_eq!(order_of(&["b", "a", "b", "a", "b"]), vec![1, 3, 0, 2, 4]);
}

#[test]
fn the_order_is_that_of_a_stable_sort() {
    let keys: Vec<String> = [
        "map_pin_path", "id", "kernel_program_type", "name", "id", "", "kind", "état", "Kind",
        "kernel_name", "name", "zz", "a", "kernel", "é", "id",
    ]
    .iter()
    .map(|k| k.to_string())
    .collect();
    let mut expected: Vec<usize> = (0..keys.len()).collect();
    expected.sort_by(|a, b| keys[*a].cmp(&keys[*b]));
    assert_eq!(key_order(&keys), expected);
}
