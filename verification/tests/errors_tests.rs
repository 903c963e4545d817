use manyerrors::{err, helper_fn_name, Errors, IterStash, LazyErrIter, LazyErrs, OptionOk, StashErrors};

fn texts(e: Errors<String>) -> Vec<String> {
    e.into_vec()
}

#[test]
fn err_equals_into() {
    let a: Errors<&str> = err("Error");
    let b: Errors<&str> = "Error".into();
    assert!(a == b);
    assert_eq!(a.into_vec(), vec!["Error"]);
}

#[test]
fn new_and_default_are_empty() {
    let a: Errors<u8> = Errors::new();
    let b: Errors<u8> = Errors::default();
    assert!(a.is_empty());
    assert!(a == b);
    assert_eq!(b.as_slice().len(), 0);
}

#[test]
fn from_vec_keeps_order() {
    let e: Errors<i32> = Errors::from(vec![3, 1, 2]);
    assert_eq!(e.as_slice(), &[3, 1, 2]);
    assert_eq!(e.into_vec(), vec![3, 1, 2]);
}

#[test]
fn iter_and_into_iter_agree() {
    let e: Errors<i32> = Errors::from(vec![4, 5, 6]);
    let a: Vec<&i32> = e.iter().collect();
    let b: Vec<&i32> = (&e).into_iter().collect();
    assert_eq!(a, vec![&4, &5, &6]);
    assert_eq!(a, b);
    let owned: Vec<i32> = e.into_iter().collect();
    assert_eq!(owned, vec![4, 5, 6]);
}

#[test]
fn stash_ok_result_hands_back_value() {
    let mut s: Errors<String> = Errors::new();
    let r: Result<i32, String> = Ok(7);
    assert_eq!(r.stash_errs(&mut s), Some(7));
    assert!(s.is_empty());
}

#[test]
fn stash_err_result_records_error() {
    let mut s: Errors<String> = err(String::from("first"));
    let r: Result<i32, String> = Err(String::from("second"));
    assert_eq!(r.stash_errs(&mut s), None);
    assert_eq!(texts(s), vec![String::from("first"), String::from("second")]);
}

#[test]
fn stash_result_with_many_errors_records_all() {
    let mut s: Errors<u8> = err(1);
    let r: Result<i32, Errors<u8>> = Err(Errors::from(vec![2, 3]));
    assert_eq!(r.stash_errs(&mut s), None);
    assert_eq!(s.into_vec(), vec![1, 2, 3]);
    let mut s2: Errors<u8> = Errors::new();
    let ok: Result<i32, Errors<u8>> = Ok(9);
    assert_eq!(ok.stash_errs(&mut s2), Some(9));
    assert!(s2.is_empty());
}

#[test]
fn stash_bare_error_records_it() {
    let mut s: Errors<u8> = Errors::new();
    assert_eq!(StashErrors::<u8>::stash_errs(5u8, &mut s), None);
    assert_eq!(s.into_vec(), vec![5]);
}

#[test]
fn stash_collection_records_all_and_hands_back_unit() {
    let mut s: Errors<u8> = err(1);
    let more: Errors<u8> = Errors::from(vec![2, 3]);
    assert_eq!(more.stash_errs(&mut s), Some(()));
    assert_eq!(s.into_vec(), vec![1, 2, 3]);
}

#[test]
fn add_result_ok_without_errors() {
    let s: Errors<String> = Errors::new();
    let r: Result<i32, String> = Ok(3);
    match s.add_result(r) {
        Ok(v) => assert_eq!(v, 3),
        Err(_) => panic!("expected Ok"),
    }
}

#[test]
fn add_result_ok_with_stashed_errors_fails() {
    let s: Errors<String> = err(String::from("stashed"));
    let r: Result<i32, String> = Ok(3);
    match s.add_result(r) {
        Ok(_) => panic!("expected Err"),
        Err(e) => assert_eq!(texts(e), vec![String::from("stashed")]),
    }
}

#[test]
fn add_result_err_appends_after_stashed() {
    let s: Errors<String> = err(String::from("stashed"));
    let r: Result<i32, String> = Err(String::from("returned"));
    match s.add_result(r) {
        Ok(_) => panic!("expected Err"),
        Err(e) => assert_eq!(texts(e), vec![String::from("stashed"), String::from("returned")]),
    }
}

#[test]
fn add_result_many_errors() {
    let s: Errors<u8> = Errors::new();
    let r: Result<i32, Errors<u8>> = Err(Errors::from(vec![4, 5]));
    match s.add_result(r) {
        Ok(_) => panic!("expected Err"),
        Err(e) => assert_eq!(e.into_vec(), vec![4, 5]),
    }
    let s: Errors<u8> = Errors::new();
    let r: Result<i32, Errors<u8>> = Err(Errors::new());
    match s.add_result(r) {
        Ok(_) => panic!("expected Err"),
        Err(e) => assert!(e.is_empty()),
    }
}

#[test]
fn option_ok_some_and_none() {
    let a: Result<i32, Errors<String>> = Some(4).ok();
    match a {
        Ok(v) => assert_eq!(v, 4),
        Err(_) => panic!("expected Ok"),
    }
    let b: Result<i32, Errors<String>> = OptionOk::<String>::ok(None::<i32>);
    match b {
        Ok(_) => panic!("expected Err"),
        Err(e) => assert!(e.is_empty()),
    }
}

#[test]
fn iter_stash_hands_out_values_and_stashes_errors() {
    let mut errs: Errors<String> = Errors::new();
    let mut got = Vec::new();
    {
        let items: Vec<Result<i32, String>> = vec![Ok(1), Ok(2), Err(String::from("error")), Ok(3)];
        let mut it = IterStash::new(items, &mut errs);
        while let Some(v) = it.next() {
            got.push(v);
        }
        assert_eq!(it.next(), None);
        it.finish();
    }
    assert_eq!(got, vec![1, 2, 3]);
    assert_eq!(texts(errs), vec![String::from("error")]);
}

#[test]
fn iter_stash_keeps_earlier_errors_and_order() {
    let mut errs: Errors<u8> = err(0);
    let mut got = Vec::new();
    {
        let items: Vec<Result<char, u8>> = vec![Err(1), Ok('a'), Err(2), Err(3), Ok('b'), Err(4)];
        let mut it = IterStash::new(items, &mut errs);
        while let Some(v) = it.next() {
            got.push(v);
        }
    }
    assert_eq!(got, vec!['a', 'b']);
    assert_eq!(errs.into_vec(), vec![0, 1, 2, 3, 4]);
}

#[test]
fn iter_stash_empty() {
    let mut errs: Errors<u8> = Errors::new();
    {
        let items: Vec<Result<char, u8>> = Vec::new();
        let mut it = IterStash::new(items, &mut errs);
        assert_eq!(it.next(), None);
    }
    assert!(errs.is_empty());
}

fn drain<O, E, A: StashErrors<E, O = O>>(mut it: LazyErrIter<O, E, A>) -> Vec<Result<O, Vec<E>>> {
    let mut out = Vec::new();
    while let Some(r) = it.next() {
        out.push(r.map_err(|e| e.into_vec()));
    }
    out
}

#[test]
fn lazy_errs_moves_errors_to_the_end() {
    let items: Vec<Result<i32, i32>> = vec![Ok(1), Err(1), Ok(2), Err(2), Ok(3), Err(3)];
    let it: LazyErrIter<i32, i32, Result<i32, i32>> = items.lazy_errs();
    let got = drain(it);
    assert_eq!(got, vec![Ok(1), Ok(2), Ok(3), Err(vec![1, 2, 3])]);
}

#[test]
fn lazy_errs_without_errors_ends_with_values() {
    let items: Vec<Result<i32, i32>> = vec![Ok(1), Ok(2)];
    let it: LazyErrIter<i32, i32, Result<i32, i32>> = items.lazy_errs();
    let got = drain(it);
    assert_eq!(got, vec![Ok(1), Ok(2)]);
}

#[test]
fn lazy_errs_only_errors() {
    let items: Vec<Result<i32, i32>> = vec![Err(7), Err(8)];
    let it: LazyErrIter<i32, i32, Result<i32, i32>> = items.lazy_errs();
    let got = drain(it);
    assert_eq!(got, vec![Err(vec![7, 8])]);
}

#[test]
fn lazy_errs_stays_done_after_the_error() {
    let items: Vec<Result<i32, i32>> = vec![Err(7)];
    let mut it: LazyErrIter<i32, i32, Result<i32, i32>> = items.lazy_errs();
    assert!(matches!(it.next(), Some(Err(_))));
    assert!(it.next().is_none());
    assert!(it.next().is_none());
}

#[test]
fn lazy_errs_collects_into_result() {
    let items: Vec<Result<i32, i32>> = vec![Ok(1), Err(5), Ok(2)];
    let mut it: LazyErrIter<i32, i32, Result<i32, i32>> = items.lazy_errs();
    let mut values = Vec::new();
    let mut failure = None;
    while let Some(r) = it.next() {
        match r {
            Ok(v) => values.push(v),
            Err(e) => failure = Some(e.into_vec()),
        }
    }
    assert_eq!(values, vec![1, 2]);
    assert_eq!(failure, Some(vec![5]));
}

fn strings(items: &[&str]) -> Errors<String> {
    let v: Vec<String> = items.iter().map(|s| s.to_string()).collect();
    Errors::from(v)
}

#[test]
fn layout_plain_joins_with_commas() {
    assert_eq!(strings(&["a", "b", "c"]).layout(false), "a, b, c");
    assert_eq!(strings(&["only"]).layout(false), "only");
    assert_eq!(strings(&[]).layout(false), "");
}

#[test]
fn layout_alternate_numbers_lines() {
    assert_eq!(strings(&["x", "y"]).layout(true), "0: x\n1: y\n");
    assert_eq!(strings(&[]).layout(true), "");
}

#[test]
fn layout_alternate_numbers_past_nine() {
    let items: Vec<&str> = vec!["e"; 12];
    let text = strings(&items).layout(true);
    let lines: Vec<&str> = text.lines().collect();
    assert_eq!(lines.len(), 12);
    assert_eq!(lines[9], "9: e");
    assert_eq!(lines[10], "10: e");
    assert_eq!(lines[11], "11: e");
}

#[test]
fn helper_name_wraps_function_name() {
    assert_eq!(helper_fn_name("my_fn"), "__manyerrors_internal_helper_my_fn__");
    assert_eq!(helper_fn_name(""), "__manyerrors_internal_helper___");
}

#[test]
fn iter_stash_finish_early_keeps_recorded_errors() {
    let mut errs: Errors<u8> = Errors::new();
    {
        let items: Vec<Result<char, u8>> = vec![Err(1), Ok('a'), Err(2)];
        let mut it = IterStash::new(items, &mut errs);
        assert_eq!(it.next(), Some('a'));
        it.finish();
    }
    assert_eq!(errs.into_vec(), vec![1]);
}
