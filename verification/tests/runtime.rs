use std::collections::{HashMap, HashSet};

use nexus::runtime::bytes::{bytes_to_string, push_leb128_s, push_leb128_u, push_le_bytes};
use nexus::runtime::collections::{
    buf_free, buf_get_byte, buf_length, buf_new, buf_push_buf, buf_push_byte, buf_push_i32_le,
    buf_push_i64_le, buf_push_leb128_s, buf_push_leb128_u, buf_push_string, buf_to_string,
    hmap_del, hmap_free, hmap_get, hmap_has, hmap_keys, hmap_new, hmap_put, hmap_size, hmap_vals,
    hset_contains, hset_difference, hset_free, hset_insert, hset_intersection, hset_new,
    hset_remove, hset_size, hset_to_list, hset_union, smap_del, smap_free, smap_get, smap_has,
    smap_keys, smap_new, smap_put, smap_size, smap_vals,
};
use nexus::runtime::files::{dir_listing, FdEntry, FdTable, FileMode};
use nexus::runtime::http::{
    append_chunk, check_request, host_result, parse_headers, parse_method, parse_url,
    plan_request, render_response, validate_bridge_limits, HttpMethod, HttpScheme,
};
use nexus::runtime::memory::{
    allocate, checked_mut_ptr, checked_optional_region, checked_ptr_len, deallocate,
    finish_realloc, has_valid_optional_region, memory_end_is_valid, pack_ptr_len, plan_realloc,
    remember_allocation, stored_result, take_allocation, Allocations, ReallocPlan,
};
use nexus::runtime::process::{
    argv_text, exec_args, exec_exit_code, exec_free, exec_stderr, exec_stdout, plan_exec,
    split_text, store_exec_failure, store_exec_result, ExecPlan, ExecResult,
};
use nexus::runtime::registry::Registry;
use nexus::runtime::strings::{
    array_length, bool_to_string, i64_to_string, string_char_at, string_contains,
    string_ends_with, string_index_of, string_is_valid_i64, string_length, string_pad_left,
    string_pad_right, string_repeat, string_replace, string_starts_with, string_substring,
    string_to_integer, string_to_integer_checked, string_to_lower, string_to_upper, trim,
};

// Memory

#[test]
fn allocations_are_taken_once() {
    let mut a = Allocations::new();
    remember_allocation(&mut a, 16, 8);
    remember_allocation(&mut a, 0, 8);
    remember_allocation(&mut a, 32, 0);
    assert!(!take_allocation(&mut a, 16, 9));
    assert!(take_allocation(&mut a, 16, 8));
    assert!(!take_allocation(&mut a, 16, 8));
    assert!(!take_allocation(&mut a, 0, 8));
    assert!(!take_allocation(&mut a, 32, 0));
}

#[test]
fn allocate_notes_what_was_granted() {
    let mut a = Allocations::new();
    assert_eq!(allocate(&mut a, 0, 64), 0);
    assert_eq!(allocate(&mut a, 10, 64), 64);
    assert_eq!(deallocate(&mut a, 64, 11, None), None);
    assert_eq!(deallocate(&mut a, 64, 10, None), Some((64, 10)));
    assert_eq!(deallocate(&mut a, 64, 10, None), None);
}

#[test]
fn regions_have_to_lie_in_memory() {
    assert_eq!(checked_ptr_len(0, 4, None), None);
    assert_eq!(checked_ptr_len(8, 0, None), None);
    assert_eq!(checked_ptr_len(8, -1, None), None);
    assert_eq!(checked_ptr_len(8, 4, None), Some((8, 4)));
    assert_eq!(checked_ptr_len(-1, 4, None), Some((4294967295, 4)));
    assert_eq!(checked_ptr_len(65532, 4, Some(1)), Some((65532, 4)));
    assert_eq!(checked_ptr_len(65533, 4, Some(1)), None);
    assert_eq!(checked_mut_ptr(8, 4, Some(1)), Some(8));
    assert_eq!(checked_mut_ptr(8, 0, None), None);
    assert!(memory_end_is_valid(65536, Some(1)));
    assert!(!memory_end_is_valid(65537, Some(1)));
    assert!(!memory_end_is_valid(0, Some(usize::MAX)));
    assert!(memory_end_is_valid(usize::MAX, None));
}

#[test]
fn optional_regions_may_be_empty() {
    assert_eq!(checked_optional_region(0, 0, None), Some(None));
    assert_eq!(checked_optional_region(0, -1, None), None);
    assert_eq!(checked_optional_region(0, 1, None), None);
    assert_eq!(checked_optional_region(4, 2, None), Some(Some((4, 2))));
    assert!(has_valid_optional_region(0, 0, Some(0)));
}

#[test]
fn realloc_plans() {
    let mut a = Allocations::new();
    assert_eq!(plan_realloc(&mut a, 0, 0, 8, 0), ReallocPlan::Refuse);
    let fresh = plan_realloc(&mut a, 0, 0, 0, 12);
    assert_eq!(fresh, ReallocPlan::Fresh { size: 12, align: 1 });
    assert_eq!(finish_realloc(&mut a, fresh, Some(40)), 40);
    assert_eq!(plan_realloc(&mut a, 40, 13, 4, 20), ReallocPlan::Refuse);
    let grow = plan_realloc(&mut a, 40, 12, 4, 20);
    assert_eq!(grow, ReallocPlan::Resize { old_ptr: 40, old_len: 12, align: 4, size: 20 });
    assert_eq!(finish_realloc(&mut a, grow, None), 0);
    let again = plan_realloc(&mut a, 40, 12, 4, 20);
    assert_eq!(finish_realloc(&mut a, again, Some(80)), 80);
    assert!(!take_allocation(&mut a, 40, 12));
    assert!(take_allocation(&mut a, 80, 20));
}

#[test]
fn results_are_packed() {
    assert_eq!(pack_ptr_len(1, 2), 4294967298);
    assert_eq!(pack_ptr_len(-1, -1), -1);
    assert_eq!(stored_result(5, 0), 0);
    assert_eq!(stored_result(0, 3), 0);
    assert_eq!(stored_result(5, 3), 21474836483);
}

// Registries

fn sorted_lines(text: &str) -> Vec<&str> {
    let mut lines: Vec<&str> = text.split('\n').collect();
    lines.sort();
    lines
}

#[test]
fn handles_are_given_out_once() {
    let mut maps: Registry<HashMap<i64, i64>> = Registry::new();
    let a = hmap_new(&mut maps);
    let b = hmap_new(&mut maps);
    assert_eq!((a, b), (1, 2));
    assert!(hmap_free(&mut maps, a));
    assert!(!hmap_free(&mut maps, a));
    assert_eq!(hmap_new(&mut maps), 3);
}

#[test]
fn integer_maps() {
    let mut maps: Registry<HashMap<i64, i64>> = Registry::new();
    let id = hmap_new(&mut maps);
    assert_eq!(hmap_put(&mut maps, id, 5, 50), 0);
    hmap_put(&mut maps, id, -6, 60);
    hmap_put(&mut maps, id, 5, 51);
    assert_eq!(hmap_get(&maps, id, 5, 0), 51);
    assert_eq!(hmap_get(&maps, id, 7, -1), -1);
    assert_eq!(hmap_get(&maps, 99, 5, -2), -2);
    assert!(hmap_has(&maps, id, -6));
    assert_eq!(hmap_size(&maps, id), 2);
    assert_eq!(sorted_lines(&hmap_keys(&maps, id)), vec!["-6", "5"]);
    assert_eq!(sorted_lines(&hmap_vals(&maps, id)), vec!["51", "60"]);
    assert!(hmap_del(&mut maps, id, 5));
    assert!(!hmap_del(&mut maps, id, 5));
    assert_eq!(hmap_size(&maps, id), 1);
    assert_eq!(hmap_keys(&maps, id), "-6");
    assert_eq!(hmap_vals(&maps, id), "60");
    assert_eq!(hmap_size(&maps, 99), 0);
    assert_eq!(hmap_keys(&maps, 99), "");
}

#[test]
fn integer_sets() {
    let mut sets: Registry<HashSet<i64>> = Registry::new();
    let a = hset_new(&mut sets);
    let b = hset_new(&mut sets);
    assert!(hset_insert(&mut sets, a, 1));
    assert!(!hset_insert(&mut sets, a, 1));
    hset_insert(&mut sets, a, 2);
    hset_insert(&mut sets, b, 2);
    hset_insert(&mut sets, b, 3);
    let u = hset_union(&mut sets, a, b);
    let i = hset_intersection(&mut sets, a, b);
    let d = hset_difference(&mut sets, a, b);
    assert_eq!(sorted_lines(&hset_to_list(&sets, u)), vec!["1", "2", "3"]);
    assert_eq!(hset_size(&sets, u), 3);
    assert_eq!(hset_to_list(&sets, i), "2");
    assert_eq!(hset_to_list(&sets, d), "1");
    let none = hset_union(&mut sets, 77, 78);
    assert_eq!(hset_size(&sets, none), 0);
    assert!(hset_contains(&sets, a, 2));
    assert!(hset_remove(&mut sets, a, 2));
    assert!(!hset_contains(&sets, a, 2));
    assert!(!hset_insert(&mut sets, 99, 2));
    assert!(hset_free(&mut sets, a));
}

#[test]
fn text_maps() {
    let mut maps: Registry<Vec<(String, i64)>> = Registry::new();
    let id = smap_new(&mut maps);
    smap_put(&mut maps, id, "b", 1);
    smap_put(&mut maps, id, "a", 2);
    smap_put(&mut maps, id, "b", 3);
    assert_eq!(smap_get(&maps, id, "b", 0), 3);
    assert_eq!(smap_get(&maps, id, "c", 9), 9);
    assert!(smap_has(&maps, id, "a"));
    assert_eq!(smap_keys(&maps, id), "b\na");
    assert_eq!(smap_vals(&maps, id), "3\n2");
    assert!(smap_del(&mut maps, id, "b"));
    assert!(!smap_del(&mut maps, id, "b"));
    assert_eq!(smap_size(&maps, id), 1);
    assert!(smap_free(&mut maps, id));
    assert!(!smap_has(&maps, id, "a"));
}

#[test]
fn byte_buffers() {
    let mut bufs: Registry<Vec<u8>> = Registry::new();
    let a = buf_new(&mut bufs);
    buf_push_byte(&mut bufs, a, 257);
    buf_push_i32_le(&mut bufs, a, -2);
    assert_eq!(buf_length(&bufs, a), 5);
    assert_eq!(buf_get_byte(&bufs, a, 0), 1);
    assert_eq!(buf_get_byte(&bufs, a, 1), 254);
    assert_eq!(buf_get_byte(&bufs, a, 4), 255);
    assert_eq!(buf_get_byte(&bufs, a, 5), -1);
    let b = buf_new(&mut bufs);
    buf_push_string(&mut bufs, b, "hä");
    assert_eq!(buf_to_string(&bufs, b), "hä");
    buf_push_byte(&mut bufs, b, 255);
    assert_eq!(buf_to_string(&bufs, b), "hä\u{FFFD}");
    buf_push_buf(&mut bufs, a, b);
    assert_eq!(buf_length(&bufs, a), 9);
    assert_eq!(buf_to_string(&bufs, 42), "");
    let c = buf_new(&mut bufs);
    buf_push_i64_le(&mut bufs, c, 0x0102030405060708);
    assert_eq!(buf_get_byte(&bufs, c, 0), 8);
    assert_eq!(buf_get_byte(&bufs, c, 7), 1);
    let d = buf_new(&mut bufs);
    buf_push_leb128_u(&mut bufs, d, 624485);
    buf_push_leb128_s(&mut bufs, d, -123456);
    assert_eq!(buf_length(&bufs, d), 6);
    assert!(buf_free(&mut bufs, d));
}

#[test]
fn leb128_of_known_values() {
    let mut v: Vec<u8> = Vec::new();
    push_leb128_u(&mut v, 624485);
    assert_eq!(v, vec![0xE5, 0x8E, 0x26]);
    let mut w: Vec<u8> = Vec::new();
    push_leb128_s(&mut w, -123456);
    assert_eq!(w, vec![0xC0, 0xBB, 0x78]);
    let mut x: Vec<u8> = Vec::new();
    push_leb128_s(&mut x, 64);
    push_leb128_s(&mut x, -64);
    assert_eq!(x, vec![0xC0, 0x00, 0x40]);
    let mut y: Vec<u8> = Vec::new();
    push_leb128_u(&mut y, u64::MAX);
    assert_eq!(y.len(), 10);
}

#[test]
fn little_endian_bytes_of_known_values() {
    let mut v: Vec<u8> = Vec::new();
    push_le_bytes(&mut v, -1, 2);
    push_le_bytes(&mut v, 513, 4);
    assert_eq!(v, vec![255, 255, 1, 2, 0, 0]);
}

#[test]
fn bytes_that_are_no_text_are_replaced() {
    assert_eq!(bytes_to_string("abc".as_bytes()), "abc");
    assert_eq!(bytes_to_string(&[104, 255, 105]), "h\u{FFFD}i");
}

// Files

#[test]
fn vacant_file_numbers_are_used_again() {
    let mut t: FdTable<u8> = FdTable::new();
    let entry = |n: u8, p: &str| FdEntry { file: n, path: p.to_string(), mode: FileMode::Read };
    assert_eq!(t.fd_alloc(entry(1, "a")), 0);
    assert_eq!(t.fd_alloc(entry(2, "b")), 1);
    assert_eq!(t.fd_path(1), Some("b".to_string()));
    assert!(t.fd_close(0));
    assert!(!t.fd_close(0));
    assert!(!t.fd_close(-1));
    assert_eq!(t.fd_path(0), None);
    assert_eq!(t.fd_alloc(entry(3, "c")), 0);
    assert_eq!(t.fd_take(0).map(|e| e.file), Some(3));
    assert_eq!(t.fd_path(9), None);
}

#[test]
fn listings_are_sorted() {
    let names = vec!["b".to_string(), "B".to_string(), "a".to_string(), "ab".to_string()];
    assert_eq!(dir_listing(&names), "B\na\nab\nb");
    assert_eq!(dir_listing(&vec![]), "");
}

// Processes

#[test]
fn commands_are_planned() {
    assert_eq!(plan_exec(0, 3, 0, 0, None), ExecPlan::BadCommand);
    assert_eq!(plan_exec(8, 3, 0, 2, None), ExecPlan::BadArgs);
    assert_eq!(plan_exec(8, 3, 0, 0, None), ExecPlan::Run { command: (8, 3), args: None });
    assert_eq!(
        plan_exec(8, 3, 16, 2, None),
        ExecPlan::Run { command: (8, 3), args: Some((16, 2)) }
    );
}

#[test]
fn arguments_stand_on_lines() {
    assert_eq!(exec_args("a\n\nb"), vec!["a", "", "b"]);
    assert_eq!(split_text("", ','), vec![""]);
    assert_eq!(split_text("a,b,", ','), vec!["a", "b", ""]);
    assert_eq!(argv_text(&exec_args("x\ny")), "x\ny");
}

#[test]
fn results_of_commands_are_kept() {
    let mut reg: Registry<ExecResult> = Registry::new();
    let id = store_exec_result(&mut reg, 3, "out".to_string(), "err".to_string());
    assert_eq!(exec_exit_code(&reg, id), 3);
    assert_eq!(exec_stdout(&reg, id), Some("out".to_string()));
    assert_eq!(exec_stderr(&reg, id), Some("err".to_string()));
    let bad = store_exec_failure(&mut reg, "invalid command pointer");
    assert_eq!(exec_exit_code(&reg, bad), -1);
    assert_eq!(exec_stderr(&reg, bad), Some("invalid command pointer".to_string()));
    assert!(exec_free(&mut reg, id));
    assert_eq!(exec_exit_code(&reg, id), -1);
    assert_eq!(exec_stdout(&reg, id), None);
}

// HTTP

#[test]
fn requests_out_of_memory_are_checked() {
    assert!(check_request((8, 3), (16, 5), (0, 0), (0, 0), None));
    assert!(!check_request((0, 3), (16, 5), (0, 0), (0, 0), None));
    assert!(!check_request((8, 3), (16, 5), (0, 2), (0, 0), None));
    assert_eq!(host_result(1, 2, None), 4294967298);
    assert_eq!(host_result(0, 2, None), 0);
}

#[test]
fn limits_of_requests() {
    let long = "x".repeat(8193);
    assert_eq!(
        validate_bridge_limits(&long, "", ""),
        Err("url exceeds 8192 bytes".to_string())
    );
    assert_eq!(validate_bridge_limits(&"x".repeat(8192), "", ""), Ok(()));
    assert_eq!(
        validate_bridge_limits("", &"h".repeat(65537), ""),
        Err("headers exceed 65536 bytes".to_string())
    );
    assert_eq!(
        validate_bridge_limits("", "", &"b".repeat(1048577)),
        Err("body exceeds 1048576 bytes".to_string())
    );
}

#[test]
fn methods_are_read_in_any_case() {
    assert_eq!(parse_method(" get "), HttpMethod::Get);
    assert_eq!(parse_method("HEAD"), HttpMethod::Head);
    assert_eq!(parse_method("Post"), HttpMethod::Post);
    assert_eq!(parse_method("put"), HttpMethod::Put);
    assert_eq!(parse_method("DELETE"), HttpMethod::Delete);
    assert_eq!(parse_method("connect"), HttpMethod::Connect);
    assert_eq!(parse_method("options"), HttpMethod::Options);
    assert_eq!(parse_method("trace"), HttpMethod::Trace);
    assert_eq!(parse_method("patch"), HttpMethod::Patch);
    assert_eq!(parse_method("brew"), HttpMethod::Other("BREW".to_string()));
}

#[test]
fn addresses_are_taken_apart() {
    assert_eq!(
        parse_url(" https://example.org/a/b?c "),
        Ok((HttpScheme::Https, "example.org".to_string(), "/a/b?c".to_string()))
    );
    assert_eq!(
        parse_url("http://example.org"),
        Ok((HttpScheme::Http, "example.org".to_string(), "/".to_string()))
    );
    assert_eq!(parse_url("ftp://x"), Err("unsupported URL scheme".to_string()));
    assert_eq!(parse_url("http://"), Err("missing authority".to_string()));
    assert_eq!(parse_url("http:///x"), Err("missing authority".to_string()));
}

#[test]
fn headers_name_the_host() {
    let hs = parse_headers("A: 1\r\n\nbad line\n : x\nB : two: 2 \n", "h");
    assert_eq!(
        hs,
        vec![
            ("A".to_string(), "1".to_string()),
            ("B".to_string(), "two: 2".to_string()),
            ("Host".to_string(), "h".to_string()),
        ]
    );
    let own = parse_headers("hOsT: mine", "h");
    assert_eq!(own, vec![("hOsT".to_string(), "mine".to_string())]);
}

#[test]
fn whole_requests() {
    let q = plan_request("get", "http://h/p", "", "").unwrap();
    assert_eq!(q.method, HttpMethod::Get);
    assert_eq!(q.authority, "h");
    assert_eq!(q.path, "/p");
    assert_eq!(q.headers.len(), 1);
    assert_eq!(
        plan_request("get", "nowhere", "", "").unwrap_err(),
        "unsupported URL scheme"
    );
}

#[test]
fn answers_are_bounded_and_rendered() {
    let mut body = String::new();
    assert_eq!(append_chunk(&mut body, "ab".as_bytes()), Ok(()));
    let big = vec![120u8; 1048575];
    assert_eq!(
        append_chunk(&mut body, &big),
        Err("response exceeds 1048576 bytes".to_string())
    );
    assert_eq!(body, "ab");
    assert_eq!(render_response(&Ok((200, body))), "200\nab");
    assert_eq!(
        render_response(&Err("no route".to_string())),
        "0\nhttp request failed: no route"
    );
}

// Strings

#[test]
fn searching_texts() {
    assert_eq!(string_length("äb"), 3);
    assert!(string_contains("hello", "ell"));
    assert!(string_contains("hello", ""));
    assert!(!string_contains("hello", "elo"));
    assert_eq!(string_index_of("äxb", "b"), 3);
    assert_eq!(string_index_of("abc", ""), 0);
    assert_eq!(string_index_of("abc", "d"), -1);
    assert!(string_starts_with("abc", "ab"));
    assert!(string_ends_with("abc", "bc"));
    assert!(!string_ends_with("bc", "abc"));
}

#[test]
fn parts_of_texts() {
    assert_eq!(string_substring("hällo", 1, 3), "äll");
    assert_eq!(string_substring("abc", -5, 2), "ab");
    assert_eq!(string_substring("abc", 2, 9), "c");
    assert_eq!(string_substring("abc", 9, 1), "");
    assert_eq!(string_char_at("äb", 0), Some("ä".to_string()));
    assert_eq!(string_char_at("äb", 2), None);
    assert_eq!(string_char_at("äb", -1), None);
    assert_eq!(trim("\u{2003} a b \n"), "a b");
    assert_eq!(trim(" \t"), "");
}

#[test]
fn other_case() {
    assert_eq!(string_to_upper("straße"), "STRASSE");
    assert_eq!(string_to_lower("ÄB"), "äb");
}

#[test]
fn replacing_texts() {
    assert_eq!(string_replace("aaa", "aa", "b"), "ba");
    assert_eq!(string_replace("abc", "", "-"), "-a-b-c-");
    assert_eq!(string_replace("abc", "x", "y"), "abc");
    assert_eq!(string_replace("a.b.c", ".", "::"), "a::b::c");
}

#[test]
fn repeating_and_padding_texts() {
    assert_eq!(string_repeat("ab", 3), "ababab");
    assert_eq!(string_repeat("ab", -1), "");
    assert_eq!(string_repeat("", 1000000), "");
    assert_eq!(string_pad_left("7", 4, "xy"), "xyx7");
    assert_eq!(string_pad_right("7", 4, "xy"), "7xyx");
    assert_eq!(string_pad_left("long", 2, "x"), "long");
    assert_eq!(string_pad_left("7", 4, ""), "7");
}

#[test]
fn values_as_texts() {
    assert_eq!(i64_to_string(i64::MIN), "-9223372036854775808");
    assert_eq!(i64_to_string(0), "0");
    assert_eq!(bool_to_string(2), "true");
    assert_eq!(bool_to_string(0), "false");
    assert_eq!(array_length(7, 3), 3);
    assert_eq!(string_to_integer(" 12 "), 12);
    assert_eq!(string_to_integer_checked("x"), None);
    assert!(string_is_valid_i64("-3"));
    assert!(!string_is_valid_i64("3.0"));
}
