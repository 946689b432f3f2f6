use aegis::diagnostic::{Diagnostic, DiagnosticCode, Label, Severity};
use aegis::interner::Interner;
use aegis::span::Span;
use aegis::symbols::{SymbolId, SymbolMap};
use std::collections::{HashMap, HashSet};

#[derive(Debug)]
struct A;
#[derive(Debug)]
struct B;
#[derive(Debug)]
struct K;

type TestInterner<'a> = Interner<'a, A>;

fn id(i: u32) -> SymbolId<K> {
    SymbolId::new(i)
}

/// A small deterministic generator of test inputs.
struct Lcg(u64);

impl Lcg {
    fn next(&mut self) -> u64 {
        self.0 = self.0.wrapping_mul(6364136223846793005).wrapping_add(1442695040888963407);
        self.0 >> 33
    }

    fn below(&mut self, n: u64) -> u64 {
        self.next() % n
    }

    /// Strings of `[a-z]{0,8}`.
    fn word(&mut self) -> String {
        let len = self.below(9);
        (0..len).map(|_| (b'a' + self.below(26) as u8) as char).collect()
    }

    /// Strings of up to 16 characters from `\u{0000}-\u{FFFF}`.
    fn unicode(&mut self) -> String {
        let len = self.below(17);
        (0..len)
            .filter_map(|_| char::from_u32(self.below(0x10000) as u32))
            .collect()
    }
}

#[test]
fn error_is_error() {
    let d = Diagnostic::error("something went wrong".to_string());
    assert!(d.is_error());
    assert_eq!(d.severity(), Severity::Error);
}

#[test]
fn warn_is_not_error() {
    let d = Diagnostic::warn("something looks odd".to_string());
    assert!(!d.is_error());
}

#[test]
fn builder_chain() {
    let d = Diagnostic::error("bad input".to_string())
        .with_code("aes::lexer", "E001")
        .with_help("try this instead".to_string())
        .with_label(Label::new(Span::sized(0, 1), "here".to_string()));

    assert_eq!(d.code().render(), "aes::lexer(E001)");
    assert_eq!(d.help(), Some("try this instead"));
    assert_eq!(d.labels().unwrap().len(), 1);
}

#[test]
fn and_label_appends() {
    let d = Diagnostic::error("bad input".to_string())
        .with_label(Label::new(Span::sized(0, 1), "first".to_string()))
        .and_label(Label::new(Span::sized(2, 1), "second".to_string()));

    assert_eq!(d.labels().unwrap().len(), 2);
}

#[test]
fn code_display_formats() {
    let mut code = DiagnosticCode::default();
    assert!(!code.is_some());
    assert_eq!(code.render(), "");

    code.scope = Some("aes::lexer".into());
    code.number = Some("E001".into());
    assert_eq!(code.render(), "aes::lexer(E001)");

    let scope_only = DiagnosticCode {
        scope: Some("aes".into()),
        number: None,
    };
    assert_eq!(scope_only.render(), "aes");
}

#[test]
fn intern_deduplication_and_resolve() {
    let mut rng = Lcg(1);
    for _ in 0..64 {
        let n = rng.below(100) as usize;
        let strings: Vec<String> = (0..n).map(|_| rng.word()).collect();
        let mut interner = TestInterner::new();
        let mut first_seen = HashMap::new();

        for s in &strings {
            let id = interner.intern(s.as_str());

            // Idempotence: same string always gives same id
            assert_eq!(interner.intern(s.as_str()), id);

            // Consistency with first observation
            let prev = *first_seen.entry(s.clone()).or_insert(id);
            assert_eq!(id, prev, "ID changed for {:?}", s);

            // resolve(intern(s)) == s
            let resolved = interner.resolve(id);
            assert_eq!(resolved, s.as_str());
            assert_eq!(interner.intern(resolved), id);

            // get() agrees with intern()
            assert_eq!(interner.get(s.as_str()), Some(id));
        }

        // Length == number of unique strings
        let unique: HashSet<_> = strings.iter().collect();
        assert_eq!(interner.len(), unique.len());
    }
}

#[test]
fn ids_are_dense() {
    let mut rng = Lcg(2);
    for _ in 0..64 {
        let n = rng.below(100) as usize;
        let strings: Vec<String> = (0..n).map(|_| rng.word()).collect();
        let mut interner = TestInterner::new();
        for s in &strings {
            interner.intern(s.as_str());
        }

        // Every index in [0, len) must be resolvable and re-intern to itself
        for idx in 0..interner.len() {
            let id = SymbolId::<A>::new(idx as u32);
            let s = interner.resolve(id);
            assert_eq!(interner.intern(s), id);
        }
    }
}

#[test]
fn iter_is_complete_and_ordered() {
    let mut rng = Lcg(3);
    for _ in 0..64 {
        let n = rng.below(100) as usize;
        let strings: Vec<String> = (0..n).map(|_| rng.word()).collect();
        let mut interner = TestInterner::new();
        for s in &strings {
            interner.intern(s.as_str());
        }

        let pairs = interner.iter();
        assert_eq!(pairs.len(), interner.len());

        for (i, (id, s)) in pairs.iter().enumerate() {
            assert_eq!(id.as_index(), i);
            assert_eq!(interner.resolve(*id), *s);
        }
    }
}

#[test]
fn unicode_strings() {
    let mut rng = Lcg(4);
    for _ in 0..64 {
        let n = rng.below(50) as usize;
        let strings: Vec<String> = (0..n).map(|_| rng.unicode()).collect();
        let mut interner = TestInterner::new();
        let mut first_seen = HashMap::new();

        for s in &strings {
            let id = interner.intern(s.as_str());
            assert_eq!(interner.resolve(id), s.as_str());

            let prev = first_seen.entry(s.clone()).or_insert(id);
            assert_eq!(id, *prev);
        }

        let unique: HashSet<_> = strings.iter().collect();
        assert_eq!(interner.len(), unique.len());
    }
}

#[test]
fn sequential_push_get_roundtrip() {
    let mut rng = Lcg(5);
    for _ in 0..64 {
        let n = rng.below(100) as usize;
        let values: Vec<u32> = (0..n).map(|_| rng.next() as u32).collect();
        let mut map = SymbolMap::new();

        for (i, &v) in values.iter().enumerate() {
            map.push_sequential(id(i as u32), v);
        }

        // Every value is readable back
        for (i, &v) in values.iter().enumerate() {
            assert_eq!(map.get(id(i as u32)), Some(&v));
        }

        // Last write wins for overwrites — check final state matches values
        assert_eq!(map.data.len(), values.len());
    }
}

#[test]
fn overwrite_does_not_grow() {
    let mut rng = Lcg(6);
    for _ in 0..64 {
        let n = 1 + rng.below(49) as usize;
        let values: Vec<u32> = (0..n).map(|_| rng.next() as u32).collect();
        let m = rng.below(20) as usize;
        let overwrites: Vec<(u32, u32)> = (0..m).map(|_| (rng.next() as u32, rng.next() as u32)).collect();
        let mut map = SymbolMap::new();

        for (i, &v) in values.iter().enumerate() {
            map.push_sequential(id(i as u32), v);
        }

        let len_before = map.data.len();

        // Overwrite random existing slots
        for (raw_idx, val) in overwrites {
            let idx = raw_idx as usize % values.len();
            map.push_sequential(id(idx as u32), val);
        }

        assert_eq!(map.data.len(), len_before);
    }
}

#[test]
fn span_empty_text_returns_empty_str() {
        assert_eq!(Span::empty(1).text("hello"), "");
    }

#[test]
fn span_full_text_source() {
        assert_eq!(Span::sized(0, 5).text("hello"), "hello");
    }

#[test]
#[should_panic(expected = "not a char boundary")]
fn span_partially_utf8_panics() {
        Span::sized(1, 1).text("héllo");
    }

#[test]
fn span_from_range_zero_size_is_empty() {
        let span = Span::from_range(3, 3);
        assert!(span.is_empty());
        assert_eq!(span.start(), 3);
        assert_eq!(span.end(), 3);
    }

#[test]
fn empty_interner_has_zero_len() {
        let i = TestInterner::new();
        assert_eq!(i.len(), 0);
        assert!(i.is_empty());
    }

#[test]
fn interner_indexing_begins_at_zero() {
        let mut i = TestInterner::new();
        let id = i.intern("hello");

        assert_eq!(id.as_index(), 0);
        assert_eq!(i.len(), 1);
        assert!(!i.is_empty());
        assert_eq!(i.resolve(id), "hello");
    }

#[test]
fn duplicate_intern_returns_same_id() {
        let mut i = TestInterner::new();
        let id1 = i.intern("hello");
        let id2 = i.intern("hello");
        assert_eq!(id1, id2);
        assert_eq!(i.len(), 1);
        assert_eq!(i.resolve(id1), "hello");
        assert_eq!(i.resolve(id2), "hello");
    }

#[test]
fn interns_empty_string() {
        let mut i = TestInterner::new();
        let id = i.intern("");
        assert_eq!(id.as_index(), 0);
        assert_eq!(i.len(), 1);
        assert!(!i.is_empty());
        assert_eq!(i.resolve(id), "");
        assert_eq!(i.get(""), Some(id))
    }

#[test]
fn ids_order_matches_insertion_order() {
        let mut i = TestInterner::new();
        let words = ["alpha", "beta", "gamma", "delta"];
        for (expected_idx, word) in words.iter().enumerate() {
            let id = i.intern(word);
            assert_eq!(id.as_index(), expected_idx);
        }
    }

#[test]
fn get_returns_none_for_missing_key() {
        let i = TestInterner::new();
        assert_eq!(i.get("missing"), None);
    }

#[test]
fn iter_covers_every_interned_string() {
        let mut i = TestInterner::new();
        let words = ["x", "y", "z"];
        let ids: Vec<_> = words.iter().map(|w| i.intern(w)).collect();

        let pairs: Vec<_> = i.iter();
        assert_eq!(pairs.len(), words.len());
        for ((id, sym), (&expected_id, &expected_sym)) in
            pairs.iter().zip(ids.iter().zip(words.iter()))
        {
            assert_eq!(*id, expected_id);
            assert_eq!(*sym, expected_sym);
        }
    }

#[test]
fn clone_is_independent() {
        let mut original = TestInterner::new();
        original.intern("shared");
        let mut cloned = original.clone();

        cloned.intern("only-in-clone");
        assert_eq!(original.len(), 1);
        assert_eq!(cloned.len(), 2);

        let id = original.get("shared").unwrap();
        assert_eq!(original.resolve(id), cloned.resolve(id));
    }

#[test]
fn interner_with_capacity_behaves_like_new() {
        let mut a = TestInterner::new();
        let mut b = TestInterner::with_capacity(64);
        let words = ["one", "two", "three"];

        for word in &words {
            a.intern(word);
            b.intern(word);
        }
        assert_eq!(a.len(), b.len());

        for word in &words {
            assert_eq!(a.get(word), b.get(word));
        }
    }

#[test]
fn distinct_marker_types_are_type_incompatible() {
        let mut a: Interner<A> = Interner::new();
        let mut b: Interner<B> = Interner::new();
        let _id_a: SymbolId<A> = a.intern("hello");
        let _id_b: SymbolId<B> = b.intern("hello");
        // If this compiles without type errors, the phantom type is working.
        // _id_a and _id_b have different types: no mix-up is possible.
    }

#[test]
fn empty_map_returns_none() {
        let map = SymbolMap::<K, u32>::new();
        assert!(map.get(id(0)).is_none());
    }

#[test]
fn sequential_push_and_get() {
        let mut map = SymbolMap::new();

        map.push_sequential(id(0), 10);
        map.push_sequential(id(1), 20);
        map.push_sequential(id(2), 30);

        assert_eq!(map.get(id(0)), Some(&10));
        assert_eq!(map.get(id(1)), Some(&20));
        assert_eq!(map.get(id(2)), Some(&30));
    }

#[test]
fn overwrite_existing_slot() {
        let mut map = SymbolMap::new();

        map.push_sequential(id(0), 1);
        map.push_sequential(id(0), 99);

        assert_eq!(map.get(id(0)), Some(&99));
        assert_eq!(map.data.len(), 1);
    }

#[test]
fn get_mut_allows_in_place_mutation() {
        let mut map = SymbolMap::new();

        map.push_sequential(id(0), 5);
        *map.get_mut(id(0)).unwrap() += 1;

        assert_eq!(map.get(id(0)), Some(&6));
    }

#[test]
fn get_out_of_bounds_returns_none() {
        let map = SymbolMap::<K, u32>::new();

        assert!(map.get(id(100)).is_none());
    }

#[test]
fn keys_only_yields_populated_slots() {
        let mut map = SymbolMap::new();

        map.push_sequential(id(0), 1);
        map.push_sequential(id(1), 2);
        // overwrite id(1) — still one slot, not two keys
        map.push_sequential(id(1), 3);
        let keys: Vec<_> = map.keys().iter().map(|k| k.as_index()).collect();
        assert_eq!(keys, vec![0, 1]);
    }

#[test]
fn symbols_with_capacity_behaves_like_new() {
        let mut a = SymbolMap::new();
        let mut b = SymbolMap::new();

        for i in 0..5u32 {
            a.push_sequential(id(i), i * 10);
            b.push_sequential(id(i), i * 10);
        }
        for i in 0..5u32 {
            assert_eq!(a.get(id(i)), b.get(id(i)));
        }
    }


#[test]
fn decode_source_accepts_valid_utf8() {
    let text = aegis::source_text::decode_source("type user {}".as_bytes());
    assert_eq!(text.as_deref(), Some("type user {}"));
}

#[test]
fn decode_source_keeps_multibyte_characters() {
    let bytes = "type caf\u{e9} { let \u{1f600} = user; }".as_bytes().to_vec();
    let text = aegis::source_text::decode_source(&bytes).unwrap();
    assert_eq!(text.as_bytes(), &bytes[..]);
    assert_eq!(text.chars().count(), 27);
}

#[test]
fn decode_source_rejects_invalid_utf8() {
    assert_eq!(aegis::source_text::decode_source(&[0x74, 0xff, 0x65]), None);
    assert_eq!(aegis::source_text::decode_source(&[0xe2, 0x82]), None);
    assert_eq!(aegis::source_text::decode_source(&[0xed, 0xa0, 0x80]), None);
}

#[test]
fn decode_source_of_nothing_is_empty_text() {
    assert_eq!(aegis::source_text::decode_source(&[]), Some(String::new()));
}

#[test]
fn display_name_normalizes_separators() {
    let source = aegis::diagnostic_source::DiagnosticSource { cwd: None, path: "path\\to\\file.aes", source_text: "test" };
    assert_eq!(source.display_name(), "path/to/file.aes");
}

#[test]
fn display_name_is_relative_to_cwd() {
    let source = aegis::diagnostic_source::DiagnosticSource {
        cwd: Some("/home/dev/project"),
        path: "/home/dev/project/schemas/main.aes",
        source_text: "",
    };
    assert_eq!(source.display_name(), "schemas/main.aes");
}

#[test]
fn display_name_outside_cwd_is_unchanged() {
    let source = aegis::diagnostic_source::DiagnosticSource {
        cwd: Some("/home/dev/project"),
        path: "/etc/aegis/main.aes",
        source_text: "",
    };
    assert_eq!(source.display_name(), "/etc/aegis/main.aes");
}

#[test]
fn forward_slashes_keep_other_characters() {
    assert_eq!(aegis::diagnostic_source::with_forward_slashes(""), "");
    assert_eq!(aegis::diagnostic_source::with_forward_slashes("\\"), "/");
    assert_eq!(aegis::diagnostic_source::with_forward_slashes("caf\u{e9}\\\\x/y"), "caf\u{e9}//x/y");
}

#[test]
fn shown_name_prefers_the_stripped_remainder() {
    assert_eq!(aegis::diagnostic_source::shown_name("/w/a\\s.aes", Some(String::from("a\\s.aes"))), "a/s.aes");
    assert_eq!(aegis::diagnostic_source::shown_name("C:\\w\\s.aes", None), "C:/w/s.aes");
    assert_eq!(aegis::diagnostic_source::shown_name("/w/s.aes", Some(String::new())), "");
}

#[test]
fn record_counts_errors_and_warnings_apart() {
    let mut tally = aegis::report::DiagnosticReportResult::new();
    tally.record(Severity::Error);
    tally.record(Severity::Warning);
    tally.record(Severity::Error);
    assert_eq!(tally.error_count, 2);
    assert_eq!(tally.warning_count, 1);
}

#[test]
fn display_name_of_the_working_directory_itself_is_empty() {
    let source = aegis::diagnostic_source::DiagnosticSource { cwd: Some("/w/a"), path: "/w/a", source_text: "" };
    assert_eq!(source.display_name(), "");
}

#[test]
fn resolve_path_joins_relative_paths_only() {
    assert_eq!(aegis::paths::resolve_path("a/s.aes", "/w"), "/w/a/s.aes");
    assert_eq!(aegis::paths::resolve_path("/x/s.aes", "/w"), "/x/s.aes");
}
