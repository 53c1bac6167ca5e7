//! What a reader of a raw key-value store needs to make sense of it: which
//! group a tree belongs to by its name, what a raw value holds, and how a
//! value is shown.

use vstd::prelude::*;
use vstd::string::{StrSliceExecFns, StringExecFns};
use vstd::utf8::encode_utf8;
use crate::codec::{lemma_lex_le_transitive, lemma_lex_lt_asymmetric, lex_less, lex_lt};
use crate::codec::{lemma_pow256_le, lemma_pow256_values, pow256};
use crate::models::text_opt;
use crate::text::{
    decimal, decimal_string, hex_byte, hex_byte_string, signed_decimal, signed_decimal_string,
    str_is,
};

verus! {

/// The kernel's name for the program type with number `code`.
pub open spec fn spec_program_type_name(code: int) -> Seq<char> {
    if code == 0 {
        "BPF_PROG_TYPE_UNSPEC"@
    } else if code == 1 {
        "BPF_PROG_TYPE_SOCKET_FILTER"@
    } else if code == 2 {
        "BPF_PROG_TYPE_KPROBE"@
    } else if code == 3 {
        "BPF_PROG_TYPE_SCHED_CLS"@
    } else if code == 4 {
        "BPF_PROG_TYPE_SCHED_ACT"@
    } else if code == 5 {
        "BPF_PROG_TYPE_TRACEPOINT"@
    } else if code == 6 {
        "BPF_PROG_TYPE_XDP"@
    } else if code == 7 {
        "BPF_PROG_TYPE_PERF_EVENT"@
    } else if code == 8 {
        "BPF_PROG_TYPE_CGROUP_SKB"@
    } else if code == 9 {
        "BPF_PROG_TYPE_CGROUP_SOCK"@
    } else if code == 10 {
        "BPF_PROG_TYPE_LWT_IN"@
    } else if code == 11 {
        "BPF_PROG_TYPE_LWT_OUT"@
    } else if code == 12 {
        "BPF_PROG_TYPE_LWT_XMIT"@
    } else if code == 13 {
        "BPF_PROG_TYPE_SOCK_OPS"@
    } else if code == 14 {
        "BPF_PROG_TYPE_SK_SKB"@
    } else if code == 15 {
        "BPF_PROG_TYPE_CGROUP_DEVICE"@
    } else if code == 16 {
        "BPF_PROG_TYPE_SK_MSG"@
    } else if code == 17 {
        "BPF_PROG_TYPE_RAW_TRACEPOINT"@
    } else if code == 18 {
        "BPF_PROG_TYPE_CGROUP_SOCK_ADDR"@
    } else if code == 19 {
        "BPF_PROG_TYPE_LWT_SEG6LOCAL"@
    } else if code == 20 {
        "BPF_PROG_TYPE_LIRC_MODE2"@
    } else if code == 21 {
        "BPF_PROG_TYPE_SK_REUSEPORT"@
    } else if code == 22 {
        "BPF_PROG_TYPE_FLOW_DISSECTOR"@
    } else if code == 23 {
        "BPF_PROG_TYPE_CGROUP_SYSCTL"@
    } else if code == 24 {
        "BPF_PROG_TYPE_RAW_TRACEPOINT_WRITABLE"@
    } else if code == 25 {
        "BPF_PROG_TYPE_CGROUP_SOCKOPT"@
    } else if code == 26 {
        "BPF_PROG_TYPE_TRACING"@
    } else if code == 27 {
        "BPF_PROG_TYPE_STRUCT_OPS"@
    } else if code == 28 {
        "BPF_PROG_TYPE_EXT"@
    } else if code == 29 {
        "BPF_PROG_TYPE_LSM"@
    } else if code == 30 {
        "BPF_PROG_TYPE_SK_LOOKUP"@
    } else if code == 31 {
        "BPF_PROG_TYPE_SYSCALL"@
    } else if code == 32 {
        "BPF_PROG_TYPE_NETFILTER"@
    } else {
        "Unknown"@
    }
}

/// The kernel's name for the program type with number `code`, or `Unknown`
/// where the number is none the kernel uses.
pub fn program_type_name(code: i64) -> (name: &'static str)
    ensures
        name@ == spec_program_type_name(code as int),
{
    match code {
        0 => "BPF_PROG_TYPE_UNSPEC",
        1 => "BPF_PROG_TYPE_SOCKET_FILTER",
        2 => "BPF_PROG_TYPE_KPROBE",
        3 => "BPF_PROG_TYPE_SCHED_CLS",
        4 => "BPF_PROG_TYPE_SCHED_ACT",
        5 => "BPF_PROG_TYPE_TRACEPOINT",
        6 => "BPF_PROG_TYPE_XDP",
        7 => "BPF_PROG_TYPE_PERF_EVENT",
        8 => "BPF_PROG_TYPE_CGROUP_SKB",
        9 => "BPF_PROG_TYPE_CGROUP_SOCK",
        10 => "BPF_PROG_TYPE_LWT_IN",
        11 => "BPF_PROG_TYPE_LWT_OUT",
        12 => "BPF_PROG_TYPE_LWT_XMIT",
        13 => "BPF_PROG_TYPE_SOCK_OPS",
        14 => "BPF_PROG_TYPE_SK_SKB",
        15 => "BPF_PROG_TYPE_CGROUP_DEVICE",
        16 => "BPF_PROG_TYPE_SK_MSG",
        17 => "BPF_PROG_TYPE_RAW_TRACEPOINT",
        18 => "BPF_PROG_TYPE_CGROUP_SOCK_ADDR",
        19 => "BPF_PROG_TYPE_LWT_SEG6LOCAL",
        20 => "BPF_PROG_TYPE_LIRC_MODE2",
        21 => "BPF_PROG_TYPE_SK_REUSEPORT",
        22 => "BPF_PROG_TYPE_FLOW_DISSECTOR",
        23 => "BPF_PROG_TYPE_CGROUP_SYSCTL",
        24 => "BPF_PROG_TYPE_RAW_TRACEPOINT_WRITABLE",
        25 => "BPF_PROG_TYPE_CGROUP_SOCKOPT",
        26 => "BPF_PROG_TYPE_TRACING",
        27 => "BPF_PROG_TYPE_STRUCT_OPS",
        28 => "BPF_PROG_TYPE_EXT",
        29 => "BPF_PROG_TYPE_LSM",
        30 => "BPF_PROG_TYPE_SK_LOOKUP",
        31 => "BPF_PROG_TYPE_SYSCALL",
        32 => "BPF_PROG_TYPE_NETFILTER",
        _ => "Unknown",
    }
}

/// What a short raw value holds.
#[derive(Debug, Clone, Copy, PartialEq, Eq, Structural)]
pub enum Scalar {
    Int32(i32),
    Int64(i64),
    Bool(bool),
}

/// The number that a little-endian byte sequence stands for.
pub open spec fn le_value(s: Seq<u8>) -> nat
    decreases s.len(),
{
    if s.len() == 0 {
        0
    } else {
        s[0] as nat + 256 * le_value(s.drop_first())
    }
}

/// The signed reading of an unsigned number of `n` bytes, in two's complement.
pub open spec fn twos_complement(v: nat, n: nat) -> int {
    if 2 * v >= pow256(n) {
        v - pow256(n)
    } else {
        v as int
    }
}

/// What a raw value holds if it is a scalar: four bytes are a little-endian
/// 32-bit integer, eight bytes a little-endian 64-bit integer, the single
/// byte one is true and the single byte zero is false.
pub open spec fn spec_decode_scalar(bytes: Seq<u8>) -> Option<Scalar> {
    if bytes.len() == 4 {
        Some(Scalar::Int32(twos_complement(le_value(bytes), 4) as i32))
    } else if bytes.len() == 8 {
        Some(Scalar::Int64(twos_complement(le_value(bytes), 8) as i64))
    } else if bytes.len() == 1 && bytes[0] == 1 {
        Some(Scalar::Bool(true))
    } else if bytes.len() == 1 && bytes[0] == 0 {
        Some(Scalar::Bool(false))
    } else {
        None
    }
}

/// A little-endian byte sequence of length `n` stands for a number below 256
/// to the power `n`.
pub proof fn lemma_le_value_bound(s: Seq<u8>)
    ensures
        le_value(s) < pow256(s.len()),
    decreases s.len(),
{
    if s.len() > 0 {
        lemma_le_value_bound(s.drop_first());
    }
}

/// Reads at most eight little-endian bytes as a number.
fn le_decode(bytes: &[u8]) -> (value: u64)
    requires
        bytes@.len() <= 8,
    ensures
        value == le_value(bytes@),
{
    let mut value: u64 = 0;
    let mut i: usize = bytes.len();
    proof {
        assert(bytes@.skip(i as int) =~= Seq::<u8>::empty());
    }
    while i > 0
        invariant
            i <= bytes@.len() <= 8,
            value == le_value(bytes@.skip(i as int)),
        decreases i,
    {
        proof {
            let tail = bytes@.skip(i as int);
            let next = bytes@.skip(i - 1);
            lemma_le_value_bound(tail);
            lemma_pow256_le(tail.len(), 7);
            lemma_pow256_values();
            reveal_with_fuel(pow256, 2);
            assert(pow256(8) == 256 * pow256(7));
            assert(next.drop_first() =~= tail);
            assert(next[0] == bytes@[i - 1]);
        }
        value = value * 256 + bytes[i - 1] as u64;
        i = i - 1;
    }
    proof {
        assert(bytes@.skip(0) =~= bytes@);
    }
    value
}

/// Reads a raw value as a scalar, if it is one.
pub fn decode_scalar(bytes: &[u8]) -> (r: Option<Scalar>)
    ensures
        r == spec_decode_scalar(bytes@),
{
    proof {
        lemma_le_value_bound(bytes@);
        lemma_pow256_values();
    }
    if bytes.len() == 4 {
        let raw = le_decode(bytes);
        if raw >= 0x8000_0000 {
            Some(Scalar::Int32((raw as i64 - 0x1_0000_0000) as i32))
        } else {
            Some(Scalar::Int32(raw as i32))
        }
    } else if bytes.len() == 8 {
        let raw = le_decode(bytes);
        if raw >= 0x8000_0000_0000_0000 {
            Some(Scalar::Int64((raw - 0x8000_0000_0000_0000) as i64 + i64::MIN))
        } else {
            Some(Scalar::Int64(raw as i64))
        }
    } else if bytes.len() == 1 && bytes[0] == 1 {
        Some(Scalar::Bool(true))
    } else if bytes.len() == 1 && bytes[0] == 0 {
        Some(Scalar::Bool(false))
    } else {
        None
    }
}

/// One element of an array value: a number, with its value where that is a
/// non-negative integer, or something else.
#[derive(Debug, Clone, Copy, PartialEq, Eq, Structural)]
pub enum ArrayItem {
    Number(Option<u64>),
    Other,
}

/// A number value: its text, and its value where that is an integer.
#[derive(Debug, Clone, PartialEq, Eq)]
pub struct NumberValue {
    pub text: String,
    pub integer: Option<i64>,
}

/// A decoded value, as far as showing it needs to know it.
#[derive(Debug, Clone, PartialEq, Eq)]
pub enum DisplayValue {
    Null,
    Bool(bool),
    Number(NumberValue),
    Text(String),
    Array(Vec<ArrayItem>),
    /// An object, already rendered as JSON text; `None` where it could not
    /// be rendered.
    Object(Option<String>),
}

/// The mathematical content of a decoded value.
pub enum DisplayView {
    Null,
    Bool(bool),
    Number { text: Seq<char>, integer: Option<i64> },
    Text(Seq<char>),
    Array(Seq<ArrayItem>),
    Object(Option<Seq<char>>),
}

impl View for DisplayValue {
    type V = DisplayView;

    open spec fn view(&self) -> DisplayView {
        match self {
            DisplayValue::Null => DisplayView::Null,
            DisplayValue::Bool(b) => DisplayView::Bool(*b),
            DisplayValue::Number(n) => DisplayView::Number { text: n.text@, integer: n.integer },
            DisplayValue::Text(text) => DisplayView::Text(text@),
            DisplayValue::Array(items) => DisplayView::Array(items@),
            DisplayValue::Object(Some(text)) => DisplayView::Object(Some(text@)),
            DisplayValue::Object(None) => DisplayView::Object(None),
        }
    }
}

/// The view of an optional decoded value.
pub open spec fn display_opt(value: Option<DisplayValue>) -> Option<DisplayView> {
    match value {
        Some(v) => Some(v@),
        None => None,
    }
}

/// The bytes as an array value: one number for each byte.
pub open spec fn byte_items(bytes: Seq<u8>) -> Seq<ArrayItem> {
    Seq::new(bytes.len(), |i: int| ArrayItem::Number(Some(bytes[i] as u64)))
}

/// An integer as a number value.
pub open spec fn integer_view(v: int) -> DisplayView {
    DisplayView::Number { text: signed_decimal(v), integer: Some(v as i64) }
}

/// What a raw value holds.
///
/// A scalar is shown as such. Anything else that is a text is the JSON
/// document it parses as, or else the text itself; `text` is the raw value
/// as a text, where it is one, and `document` the document that text parses
/// as, where it does. What is no text is the array of its bytes.
pub open spec fn spec_decode_value(
    bytes: Seq<u8>,
    text: Option<Seq<char>>,
    document: Option<DisplayView>,
) -> DisplayView {
    match spec_decode_scalar(bytes) {
        Some(Scalar::Int32(v)) => integer_view(v as int),
        Some(Scalar::Int64(v)) => integer_view(v as int),
        Some(Scalar::Bool(b)) => DisplayView::Bool(b),
        None => match text {
            Some(t) => match document {
                Some(d) => d,
                None => DisplayView::Text(t),
            },
            None => DisplayView::Array(byte_items(bytes)),
        },
    }
}

/// How one element of an array is shown: a number as two or more
/// hexadecimal digits, zero where it is no non-negative integer, and
/// anything else as a question mark.
pub open spec fn item_text(item: ArrayItem) -> Seq<char> {
    match item {
        ArrayItem::Number(Some(v)) => hex_byte(v as nat),
        ArrayItem::Number(None) => hex_byte(0),
        ArrayItem::Other => "?"@,
    }
}

/// The elements as shown, separated by single spaces.
pub open spec fn joined(items: Seq<ArrayItem>) -> Seq<char>
    decreases items.len(),
{
    if items.len() == 0 {
        Seq::empty()
    } else if items.len() == 1 {
        item_text(items[0])
    } else {
        joined(items.drop_last()) + " "@ + item_text(items.last())
    }
}

/// How many elements of an array of length `len` are shown.
pub open spec fn shown(len: nat) -> nat {
    if len < 10 {
        len
    } else {
        10
    }
}

/// How an array is shown: its first ten elements and its length.
pub open spec fn array_text(items: Seq<ArrayItem>) -> Seq<char> {
    "["@ + joined(items.take(shown(items.len()) as int)) + " ...] ("@ + decimal(items.len())
        + " bytes)"@
}

/// How a value stored under `key` is shown at nesting depth `depth`.
pub open spec fn spec_format_value(key: Seq<char>, value: DisplayView, depth: nat) -> Seq<char> {
    if depth > 5 {
        "..."@
    } else if key == "kernel_program_type"@ && value is Number {
        match value->integer {
            Some(code) => spec_program_type_name(code as int),
            None => spec_program_type_name(-1),
        }
    } else {
        match value {
            DisplayView::Object(Some(text)) => text,
            DisplayView::Object(None) => key + ": INVALID_JSON"@,
            DisplayView::Array(items) => array_text(items),
            DisplayView::Text(text) => text,
            DisplayView::Bool(true) => "true"@,
            DisplayView::Bool(false) => "false"@,
            DisplayView::Number { text, integer } => text,
            DisplayView::Null => "null"@,
        }
    }
}

fn integer_value(v: i64) -> (r: DisplayValue)
    ensures
        r@ == integer_view(v as int),
{
    DisplayValue::Number(NumberValue { text: signed_decimal_string(v), integer: Some(v) })
}

/// The text that `bytes` are in UTF-8, as `String::from_utf8` of the
/// standard library reads them, or `None` where it refuses them.
pub uninterp spec fn utf8_text_of(bytes: Seq<u8>) -> Option<Seq<char>>;

/// Reads bytes as UTF-8 with `String::from_utf8` of the standard library,
/// which refuses what is no valid UTF-8: the contract only names what it
/// returns.
#[verifier::external_body]
fn utf8_text(bytes: &[u8]) -> (r: Option<String>)
    ensures
        text_opt(r) == utf8_text_of(bytes@),
{
    String::from_utf8(bytes.to_vec()).ok()
}

/// The raw value as a text, where it is valid UTF-8.
pub fn value_text(value: &[u8]) -> (r: Option<String>)
    ensures
        text_opt(r) == utf8_text_of(value@),
{
    utf8_text(value)
}

/// Reads a raw value.
///
/// `document` is the JSON document that the value parses as where it is a
/// text, if it is one. Four bytes are a little-endian 32-bit integer, eight
/// bytes a little-endian 64-bit integer, the single bytes one and zero are
/// true and false. Any other value that is valid UTF-8 is the document, or
/// else the text itself. What is no text is the array of its bytes.
pub fn decode_value(value: &[u8], document: Option<DisplayValue>) -> (r: DisplayValue)
    ensures
        r@ == spec_decode_value(value@, utf8_text_of(value@), display_opt(document)),
{
    let text = if decode_scalar(value).is_some() {
        None
    } else {
        utf8_text(value)
    };
    decode_value_from(value, text, document)
}

/// Reads a raw value of which it is known what text it is, if any.
///
/// `text` is the raw value as a text, where it is one, and `document` is
/// the JSON document that text parses as, where it does. A scalar is read
/// from the bytes alone. Any other text is the document it parses as, or
/// else the text itself. What is no text is the array of its bytes.
pub fn decode_value_from(
    value: &[u8],
    text: Option<String>,
    document: Option<DisplayValue>,
) -> (r: DisplayValue)
    ensures
        r@ == spec_decode_value(value@, text_opt(text), display_opt(document)),
{
    match decode_scalar(value) {
        Some(Scalar::Int32(v)) => integer_value(v as i64),
        Some(Scalar::Int64(v)) => integer_value(v),
        Some(Scalar::Bool(b)) => DisplayValue::Bool(b),
        None => match text {
            Some(t) => match document {
                Some(d) => d,
                None => DisplayValue::Text(t),
            },
            None => {
                let mut items: Vec<ArrayItem> = Vec::new();
                let mut i: usize = 0;
                while i < value.len()
                    invariant
                        i <= value@.len(),
                        items@ == byte_items(value@).take(i as int),
                    decreases value@.len() - i,
                {
                    items.push(ArrayItem::Number(Some(value[i] as u64)));
                    proof {
                        assert(items@ =~= byte_items(value@).take(i + 1));
                    }
                    i = i + 1;
                }
                proof {
                    assert(byte_items(value@).take(i as int) =~= byte_items(value@));
                }
                DisplayValue::Array(items)
            },
        },
    }
}

fn item_string(item: ArrayItem) -> (out: String)
    ensures
        out@ == item_text(item),
{
    match item {
        ArrayItem::Number(Some(v)) => hex_byte_string(v),
        ArrayItem::Number(None) => hex_byte_string(0),
        ArrayItem::Other => String::from_str("?"),
    }
}

fn array_string(items: &Vec<ArrayItem>) -> (out: String)
    ensures
        out@ == array_text(items@),
{
    let count: usize = if items.len() < 10 {
        items.len()
    } else {
        10
    };
    let mut body = String::new();
    let mut i: usize = 0;
    proof {
        assert(items@.take(0) =~= Seq::<ArrayItem>::empty());
    }
    while i < count
        invariant
            i <= count <= items@.len(),
            body@ == joined(items@.take(i as int)),
        decreases count - i,
    {
        proof {
            let next = items@.take(i + 1);
            assert(next.drop_last() =~= items@.take(i as int));
            assert(next.last() == items@[i as int]);
            assert(next[0] == items@[0]);
        }
        let ghost before = body@;
        if i > 0 {
            body.append(" ");
        }
        body.append(item_string(items[i]).as_str());
        proof {
            if i == 0 {
                assert(before =~= Seq::<char>::empty());
                assert(body@ =~= item_text(items@[0]));
            }
        }
        i = i + 1;
    }
    let mut out = String::from_str("[");
    out.append(body.as_str());
    out.append(" ...] (");
    out.append(decimal_string(items.len()).as_str());
    out.append(" bytes)");
    out
}

/// Shows a value stored under `key` at nesting depth `depth`.
///
/// Beyond depth five only an ellipsis is shown. A number stored under the
/// key `kernel_program_type` is shown as the kernel's name for that program
/// type. An object is shown as its JSON text, an array as its first ten
/// elements in hexadecimal with its length, and anything else as it stands.
pub fn format_value_as_string(key: &str, value: &DisplayValue, depth: usize) -> (out: String)
    ensures
        out@ == spec_format_value(key@, value@, depth as nat),
{
    if depth > 5 {
        return String::from_str("...");
    }
    if str_is(key, "kernel_program_type") {
        match value {
            DisplayValue::Number(n) => {
                let code: i64 = match n.integer {
                    Some(code) => code,
                    None => -1,
                };
                return String::from_str(program_type_name(code));
            },
            _ => {},
        }
    }
    match value {
        DisplayValue::Object(Some(text)) => text.clone(),
        DisplayValue::Object(None) => {
            let mut out = String::from_str(key);
            out.append(": INVALID_JSON");
            out
        },
        DisplayValue::Array(items) => array_string(items),
        DisplayValue::Text(text) => text.clone(),
        DisplayValue::Bool(b) => {
            if *b {
                String::from_str("true")
            } else {
                String::from_str("false")
            }
        },
        DisplayValue::Number(n) => n.text.clone(),
        DisplayValue::Null => String::from_str("null"),
    }
}

/// The groups that trees are shown in.
#[derive(Debug, Clone, Copy, PartialEq, Eq, Structural)]
pub enum TreeGroup {
    Programs,
    Maps,
    TcDispatchers,
    XdpDispatchers,
    Store,
    KernelPrograms,
    Miscellaneous,
}

impl TreeGroup {
    /// The heading of the group.
    pub open spec fn spec_title(self) -> Seq<char> {
        match self {
            TreeGroup::Programs => "Programs"@,
            TreeGroup::Maps => "Maps"@,
            TreeGroup::TcDispatchers => "Traffic Control Dispatchers"@,
            TreeGroup::XdpDispatchers => "XDP Dispatchers"@,
            TreeGroup::Store => "STORE"@,
            TreeGroup::KernelPrograms => "Kernel Programs"@,
            TreeGroup::Miscellaneous => "Miscellaneous"@,
        }
    }

    /// The heading of the group.
    pub fn title(self) -> (t: &'static str)
        ensures
            t@ == self.spec_title(),
    {
        match self {
            TreeGroup::Programs => "Programs",
            TreeGroup::Maps => "Maps",
            TreeGroup::TcDispatchers => "Traffic Control Dispatchers",
            TreeGroup::XdpDispatchers => "XDP Dispatchers",
            TreeGroup::Store => "STORE",
            TreeGroup::KernelPrograms => "Kernel Programs",
            TreeGroup::Miscellaneous => "Miscellaneous",
        }
    }
}

/// Whether `std`'s `char::is_numeric` holds of `c`.
pub uninterp spec fn char_is_numeric(c: char) -> bool;

/// Whether `c` is numeric, as `char::is_numeric` of the standard library
/// decides: the contract only names that decision.
#[verifier::external_body]
fn is_numeric(c: char) -> (r: bool)
    ensures
        r == char_is_numeric(c),
{
    c.is_numeric()
}

/// Whether `s` begins with `prefix`.
pub open spec fn has_prefix(s: Seq<char>, prefix: Seq<char>) -> bool {
    prefix.len() <= s.len() && s.take(prefix.len() as int) == prefix
}

/// `s` with every underscore replaced by a slash.
pub open spec fn slashed(s: Seq<char>) -> Seq<char> {
    Seq::new(
        s.len(),
        |i: int|
            if s[i] == '_' {
                '/'
            } else {
                s[i]
            },
    )
}

/// Whether every character of `s` is numeric.
pub open spec fn all_numeric(s: Seq<char>) -> bool {
    forall|i: int| 0 <= i < s.len() ==> char_is_numeric(#[trigger] s[i])
}

/// The group a tree belongs to and the label it is shown under, by its name.
pub open spec fn spec_classify_tree(name: Seq<char>) -> (TreeGroup, Seq<char>) {
    if has_prefix(name, "program_"@) {
        (TreeGroup::Programs, "Program:"@ + name.skip("program_"@.len() as int))
    } else if has_prefix(name, "map_"@) {
        (TreeGroup::Maps, "Map:"@ + name.skip("map_"@.len() as int))
    } else if has_prefix(name, "tc_dispatcher_"@) {
        (
            TreeGroup::TcDispatchers,
            "TrafficControlDispatcher:"@ + slashed(name.skip("tc_dispatcher_"@.len() as int)),
        )
    } else if has_prefix(name, "xdp_dispatcher_"@) {
        (
            TreeGroup::XdpDispatchers,
            "XDPDispatcher:"@ + slashed(name.skip("xdp_dispatcher_"@.len() as int)),
        )
    } else if name == "__sled__default"@ {
        (TreeGroup::Store, "IMAGES"@)
    } else if all_numeric(name) {
        (TreeGroup::KernelPrograms, "KernelProgram:"@ + name)
    } else {
        (TreeGroup::Miscellaneous, "Misc:"@ + name)
    }
}

/// What follows `prefix` in `name`, if `name` begins with it.
fn strip_prefix<'a>(name: &'a str, prefix: &str) -> (r: Option<&'a str>)
    ensures
        match r {
            Some(rest) => has_prefix(name@, prefix@) && rest@ == name@.skip(prefix@.len() as int),
            None => !has_prefix(name@, prefix@),
        },
{
    let n = name.unicode_len();
    let p = prefix.unicode_len();
    if p > n {
        return None;
    }
    let mut i: usize = 0;
    while i < p
        invariant
            i <= p <= n,
            n == name@.len(),
            p == prefix@.len(),
            forall|j: int| 0 <= j < i ==> name@[j] == prefix@[j],
        decreases p - i,
    {
        if name.get_char(i) != prefix.get_char(i) {
            proof {
                assert(name@.take(p as int)[i as int] != prefix@[i as int]);
            }
            return None;
        }
        i = i + 1;
    }
    proof {
        assert(name@.take(p as int) =~= prefix@);
        assert(name@.subrange(p as int, n as int) =~= name@.skip(p as int));
    }
    Some(name.substring_char(p, n))
}

/// `s` with every underscore replaced by a slash.
fn with_slashes(s: &str) -> (out: String)
    ensures
        out@ == slashed(s@),
{
    let n = s.unicode_len();
    let mut out = String::new();
    let mut i: usize = 0;
    while i < n
        invariant
            i <= n,
            n == s@.len(),
            out@ == slashed(s@).take(i as int),
        decreases n - i,
    {
        let ghost before = out@;
        if s.get_char(i) == '_' {
            out.append("/");
            proof {
                reveal_strlit("/");
                assert("/"@ =~= seq!['/']);
            }
        } else {
            out.append(s.substring_char(i, i + 1));
            proof {
                assert(s@.subrange(i as int, i + 1) =~= seq![s@[i as int]]);
            }
        }
        proof {
            assert(out@ =~= slashed(s@).take(i + 1));
        }
        i = i + 1;
    }
    proof {
        assert(slashed(s@).take(n as int) =~= slashed(s@));
    }
    out
}

/// Whether every character of `s` is numeric.
fn is_all_numeric(s: &str) -> (r: bool)
    ensures
        r == all_numeric(s@),
{
    let n = s.unicode_len();
    let mut i: usize = 0;
    while i < n
        invariant
            i <= n,
            n == s@.len(),
            forall|j: int| 0 <= j < i ==> char_is_numeric(#[trigger] s@[j]),
        decreases n - i,
    {
        if !is_numeric(s.get_char(i)) {
            return false;
        }
        i = i + 1;
    }
    true
}

fn labelled(label: &str, rest: &str) -> (out: String)
    ensures
        out@ == label@ + rest@,
{
    let mut out = String::from_str(label);
    out.append(rest);
    out
}

/// Sorts a tree into its group by its name and gives it its label.
///
/// Trees named `program_…`, `map_…`, `tc_dispatcher_…` and
/// `xdp_dispatcher_…` belong to the programs, the maps and the two kinds of
/// dispatcher; the label of a dispatcher shows the underscores of its name
/// as slashes. The default tree holds the images. A tree whose name is
/// numeric throughout is a kernel program. Everything else is miscellaneous.
pub fn classify_tree(name: &str) -> (r: (TreeGroup, String))
    ensures
        r.0 == spec_classify_tree(name@).0,
        r.1@ == spec_classify_tree(name@).1,
{
    match strip_prefix(name, "program_") {
        Some(id) => {
            return (TreeGroup::Programs, labelled("Program:", id));
        },
        None => {},
    }
    match strip_prefix(name, "map_") {
        Some(id) => {
            return (TreeGroup::Maps, labelled("Map:", id));
        },
        None => {},
    }
    match strip_prefix(name, "tc_dispatcher_") {
        Some(id) => {
            let path = with_slashes(id);
            return (
                TreeGroup::TcDispatchers,
                labelled("TrafficControlDispatcher:", path.as_str()),
            );
        },
        None => {},
    }
    match strip_prefix(name, "xdp_dispatcher_") {
        Some(id) => {
            let path = with_slashes(id);
            return (TreeGroup::XdpDispatchers, labelled("XDPDispatcher:", path.as_str()));
        },
        None => {},
    }
    if str_is(name, "__sled__default") {
        (TreeGroup::Store, String::from_str("IMAGES"))
    } else if is_all_numeric(name) {
        (TreeGroup::KernelPrograms, labelled("KernelProgram:", name))
    } else {
        (TreeGroup::Miscellaneous, labelled("Misc:", name))
    }
}

/// `n` spaces.
pub open spec fn spaces(n: nat) -> Seq<char> {
    Seq::new(n, |i: int| ' ')
}

/// Where the first line feed of `s` stands, or the length of `s` if it has none.
pub open spec fn newline_at(s: Seq<char>) -> nat
    decreases s.len(),
{
    if s.len() == 0 || s[0] == '\n' {
        0
    } else {
        (1 + newline_at(s.drop_first())) as nat
    }
}

/// A line without the carriage return that ends it, if one does.
pub open spec fn without_return(line: Seq<char>) -> Seq<char> {
    if line.len() > 0 && line.last() == '\r' {
        line.drop_last()
    } else {
        line
    }
}

/// The lines of a text. A line ends at a line feed, or at a carriage return
/// with a line feed after it; what ends a line is no part of it. What
/// follows the last line feed is a line too, unless nothing follows it.
pub open spec fn text_lines(s: Seq<char>) -> Seq<Seq<char>>
    decreases s.len(),
{
    if s.len() == 0 {
        Seq::empty()
    } else if newline_at(s) >= s.len() {
        seq![s]
    } else {
        seq![without_return(s.take(newline_at(s) as int))] + text_lines(
            s.skip(newline_at(s) as int + 1),
        )
    }
}

/// The lines as they are shown below one another: each ends with a line
/// feed, and each but the first begins `indent` and four more spaces in.
pub open spec fn laid_out(lines: Seq<Seq<char>>, indent: nat) -> Seq<char>
    decreases lines.len(),
{
    if lines.len() == 0 {
        Seq::empty()
    } else if lines.len() == 1 {
        lines[0] + "\n"@
    } else {
        laid_out(lines.drop_last(), indent) + spaces(indent) + "    "@ + lines.last() + "\n"@
    }
}

/// How an entry is shown: `indent` spaces, the key, a colon and a space,
/// and then what the value is shown as, line below line.
pub open spec fn spec_entry_text(key: Seq<char>, shown: Seq<char>, indent: nat) -> Seq<char> {
    spaces(indent) + key + ": "@ + laid_out(text_lines(shown), indent)
}

/// The contents of a sequence of texts.
pub open spec fn line_views(lines: Seq<String>) -> Seq<Seq<char>> {
    Seq::new(lines.len(), |i: int| lines[i]@)
}

/// The first line feed of `s` stands where no line feed stands before.
pub proof fn lemma_newline_at(s: Seq<char>, m: int)
    requires
        0 <= m <= s.len(),
        forall|k: int| 0 <= k < m ==> s[k] != '\n',
        m == s.len() || s[m] == '\n',
    ensures
        newline_at(s) == m,
    decreases s.len(),
{
    if m > 0 {
        let rest = s.drop_first();
        assert forall|k: int| 0 <= k < m - 1 implies rest[k] != '\n' by {
            assert(rest[k] == s[k + 1]);
        }
        lemma_newline_at(rest, m - 1);
    }
}

fn padding(n: usize) -> (out: String)
    ensures
        out@ == spaces(n as nat),
{
    let mut out = String::new();
    let mut i: usize = 0;
    while i < n
        invariant
            i <= n,
            out@ == spaces(i as nat),
        decreases n - i,
    {
        out.append(" ");
        proof {
            reveal_strlit(" ");
            assert(out@ =~= spaces((i + 1) as nat));
        }
        i = i + 1;
    }
    out
}

/// Where the first line feed at or after `start` stands, or the length of
/// the text if there is none.
fn next_newline(text: &str, start: usize) -> (end: usize)
    requires
        start <= text@.len(),
    ensures
        start <= end <= text@.len(),
        end - start == newline_at(text@.skip(start as int)),
{
    let n = text.unicode_len();
    let mut end: usize = start;
    while end < n
        invariant
            start <= end <= n,
            n == text@.len(),
            forall|k: int| start <= k < end ==> text@[k] != '\n',
        decreases n - end,
    {
        if text.get_char(end) == '\n' {
            proof {
                lemma_newline_at(text@.skip(start as int), end - start);
            }
            return end;
        }
        end = end + 1;
    }
    proof {
        lemma_newline_at(text@.skip(start as int), end - start);
    }
    end
}

/// Splits a text into its lines.
pub fn lines_of(text: &str) -> (lines: Vec<String>)
    ensures
        line_views(lines@) == text_lines(text@),
{
    let n = text.unicode_len();
    let mut lines: Vec<String> = Vec::new();
    let mut start: usize = 0;
    proof {
        assert(text@.skip(0) =~= text@);
        assert(line_views(lines@) + text_lines(text@) =~= text_lines(text@));
    }
    while start < n
        invariant
            start <= n,
            n == text@.len(),
            text_lines(text@) == line_views(lines@) + text_lines(text@.skip(start as int)),
        decreases n - start,
    {
        let ghost rest = text@.skip(start as int);
        let ghost before = line_views(lines@);
        let end = next_newline(text, start);
        if end == n {
            lines.push(String::from_str(text.substring_char(start, n)));
            proof {
                assert(text@.subrange(start as int, n as int) =~= rest);
                assert(line_views(lines@) =~= before + seq![rest]);
                assert(text@.skip(n as int) =~= Seq::<char>::empty());
                assert(before + seq![rest] + text_lines(text@.skip(n as int)) =~= before + seq![
                    rest,
                ]);
            }
            start = n;
        } else {
            let stop = if end > start && text.get_char(end - 1) == '\r' {
                end - 1
            } else {
                end
            };
            lines.push(String::from_str(text.substring_char(start, stop)));
            proof {
                let whole = rest.take(end - start);
                assert(text@.subrange(start as int, end as int) =~= whole);
                if end > start {
                    assert(whole.last() == text@[end - 1]);
                    assert(text@.subrange(start as int, end - 1) =~= whole.drop_last());
                }
                assert(text@.subrange(start as int, stop as int) == without_return(whole));
                assert(rest.skip(end - start + 1) =~= text@.skip(end + 1));
                assert(line_views(lines@) =~= before + seq![without_return(whole)]);
                assert(before + (seq![without_return(whole)] + text_lines(text@.skip(end + 1)))
                    =~= before + seq![without_return(whole)] + text_lines(text@.skip(end + 1)));
            }
            start = end + 1;
        }
    }
    proof {
        assert(text@.skip(n as int) =~= Seq::<char>::empty());
        assert(line_views(lines@) + Seq::<Seq<char>>::empty() =~= line_views(lines@));
    }
    lines
}

/// Shows an entry: the key, `indent` spaces in, and after a colon what the
/// value is shown as. Where that has several lines, each further line
/// stands below, four more spaces in. Every line ends with a line feed; a
/// value shown as nothing leaves the key and the colon without one.
pub fn entry_text(key: &str, shown: &str, indent: usize) -> (out: String)
    ensures
        out@ == spec_entry_text(key@, shown@, indent as nat),
{
    let mut out = padding(indent);
    out.append(key);
    out.append(": ");
    let ghost head = out@;
    let lines = lines_of(shown);
    let mut i: usize = 0;
    proof {
        assert(line_views(lines@).take(0) =~= Seq::<Seq<char>>::empty());
        assert(head + laid_out(Seq::<Seq<char>>::empty(), indent as nat) =~= head);
    }
    while i < lines.len()
        invariant
            i <= lines@.len(),
            head == spaces(indent as nat) + key@ + ": "@,
            out@ == head + laid_out(line_views(lines@).take(i as int), indent as nat),
        decreases lines@.len() - i,
    {
        let ghost before = laid_out(line_views(lines@).take(i as int), indent as nat);
        proof {
            let next = line_views(lines@).take(i + 1);
            assert(next.drop_last() =~= line_views(lines@).take(i as int));
            assert(next.last() == lines@[i as int]@);
            assert(next[0] == lines@[0]@);
        }
        if i > 0 {
            out.append(padding(indent).as_str());
            out.append("    ");
        }
        out.append(lines[i].as_str());
        out.append("\n");
        proof {
            let line = lines@[i as int]@;
            if i > 0 {
                assert(out@ =~= head + (before + spaces(indent as nat) + "    "@ + line + "\n"@));
            } else {
                assert(before =~= Seq::<char>::empty());
                assert(out@ =~= head + (line + "\n"@));
            }
        }
        i = i + 1;
    }
    proof {
        assert(line_views(lines@).take(i as int) =~= line_views(lines@));
    }
    out
}

/// The bytes by which a key is ordered: its UTF-8 encoding.
pub open spec fn key_bytes(key: Seq<char>) -> Seq<u8> {
    encode_utf8(key)
}

/// Whether `order` lists entries by their keys: no entry stands before one
/// whose key sorts before its own.
pub open spec fn sorted_by_key(keys: Seq<String>, order: Seq<usize>) -> bool {
    forall|p: int, q: int|
        0 <= p < q < order.len() ==> !lex_lt(
            key_bytes(keys[#[trigger] order[q] as int]@),
            key_bytes(keys[#[trigger] order[p] as int]@),
        )
}

/// Whether `order` keeps entries with the same key in the order they had:
/// where an entry stands before one that came earlier, its key sorts before.
pub open spec fn keeps_ties(keys: Seq<String>, order: Seq<usize>) -> bool {
    forall|p: int, q: int|
        0 <= p < q < order.len() ==> (#[trigger] order[p]) < (#[trigger] order[q]) || lex_lt(
            key_bytes(keys[order[p] as int]@),
            key_bytes(keys[order[q] as int]@),
        )
}

/// Whether `order` lists each of the first `n` entries, and nothing else.
pub open spec fn lists_all(order: Seq<usize>, n: nat) -> bool {
    &&& order.len() == n
    &&& forall|p: int| 0 <= p < order.len() ==> (#[trigger] order[p]) < n
    &&& forall|i: usize| i < n ==> #[trigger] order.contains(i)
}

/// The order in which entries are shown: by their keys, compared byte by
/// byte, and entries with the same key in the order they have.
pub fn key_order(keys: &Vec<String>) -> (order: Vec<usize>)
    ensures
        lists_all(order@, keys@.len()),
        sorted_by_key(keys@, order@),
        keeps_ties(keys@, order@),
{
    let mut order: Vec<usize> = Vec::new();
    let mut i: usize = 0;
    while i < keys.len()
        invariant
            i <= keys@.len(),
            lists_all(order@, i as nat),
            sorted_by_key(keys@, order@),
            keeps_ties(keys@, order@),
        decreases keys@.len() - i,
    {
        let key = keys[i].as_str().as_bytes();
        let ghost mine = key_bytes(keys@[i as int]@);
        let mut pos: usize = order.len();
        while pos > 0 && lex_less(key, keys[order[pos - 1]].as_str().as_bytes())
            invariant
                pos <= order@.len(),
                i < keys@.len(),
                key@ == mine,
                mine == key_bytes(keys@[i as int]@),
                lists_all(order@, i as nat),
                forall|q: int|
                    pos <= q < order@.len() ==> lex_lt(
                        mine,
                        key_bytes(keys@[#[trigger] order@[q] as int]@),
                    ),
            decreases pos,
        {
            pos = pos - 1;
        }
        let ghost before = order@;
        order.insert(pos, i);
        proof {
            let after = order@;
            assert forall|p: int, q: int| 0 <= p < q < after.len() implies !lex_lt(
                key_bytes(keys@[#[trigger] after[q] as int]@),
                key_bytes(keys@[#[trigger] after[p] as int]@),
            ) && (after[p] < after[q] || lex_lt(
                key_bytes(keys@[after[p] as int]@),
                key_bytes(keys@[after[q] as int]@),
            )) by {
                if q == pos {
                    // An entry that stood before the place found, and the new one.
                    let last = key_bytes(keys@[before[pos - 1] as int]@);
                    if p < pos - 1 {
                        assert(before[p] == after[p] && before[pos - 1] == after[pos - 1]);
                        lemma_lex_le_transitive(key_bytes(keys@[before[p] as int]@), last, mine);
                    }
                    assert(before[p] < i);
                } else if p == pos {
                    // The new entry, and one that stood at or after the place found.
                    assert(after[q] == before[q - 1]);
                    lemma_lex_lt_asymmetric(mine, key_bytes(keys@[before[q - 1] as int]@));
                } else {
                    let op = if p < pos {
                        p
                    } else {
                        p - 1
                    };
                    let oq = if q < pos {
                        q
                    } else {
                        q - 1
                    };
                    assert(after[p] == before[op] && after[q] == before[oq]);
                }
            }
            assert forall|j: usize| j < i + 1 implies #[trigger] after.contains(j) by {
                if j == i {
                    assert(after[pos as int] == i);
                } else {
                    assert(before.contains(j));
                    let at = choose|at: int| 0 <= at < before.len() && before[at] == j;
                    if at < pos {
                        assert(after[at] == j);
                    } else {
                        assert(after[at + 1] == j);
                    }
                }
            }
            assert forall|p: int| 0 <= p < after.len() implies (#[trigger] after[p]) < i + 1 by {
                if p < pos {
                    assert(after[p] == before[p]);
                } else if p > pos {
                    assert(after[p] == before[p - 1]);
                }
            }
        }
        i = i + 1;
    }
    order
}

} // verus!
