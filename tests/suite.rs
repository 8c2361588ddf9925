use wave_bench::suite::{
    is_selected, libraries_for, operations, require_signals, require_variables,
    select_for_query, Format, Library, Operation, QUERY_LIMIT,
};

#[test]
fn extensions_select_formats() {
    assert_eq!(Format::from_extension("vcd"), Some(Format::Vcd));
    assert_eq!(Format::from_extension("fst"), Some(Format::Fst));
    assert_eq!(Format::from_extension("VCD"), None);
    assert_eq!(Format::from_extension("vcdx"), None);
    assert_eq!(Format::from_extension(""), None);
    assert_eq!(Format::from_extension("txt"), None);
}

#[test]
fn names_in_output() {
    assert_eq!(Format::Vcd.name(), "vcd");
    assert_eq!(Format::Fst.name(), "fst");
    assert_eq!(Library::Wellen.name(), "wellen");
    assert_eq!(Library::RustVcd.name(), "rust-vcd");
    assert_eq!(Library::VcdNg.name(), "vcd-ng");
    assert_eq!(Library::FstReader.name(), "fst-reader");
    assert_eq!(Library::Fstapi.name(), "fstapi");
    assert_eq!(Operation::FullParse.name(), "full_parse");
    assert_eq!(Operation::SignalList.name(), "signal_list");
    assert_eq!(Operation::ValueQuery.name(), "value_query");
    assert_eq!(Operation::Pipeline.name(), "pipeline");
}

#[test]
fn libraries_per_format_in_order() {
    assert_eq!(
        libraries_for(Format::Vcd),
        vec![Library::Wellen, Library::RustVcd, Library::VcdNg]
    );
    assert_eq!(
        libraries_for(Format::Fst),
        vec![Library::Wellen, Library::FstReader, Library::Fstapi]
    );
    assert!(Library::Wellen.supports(Format::Fst));
    assert!(Library::RustVcd.supports(Format::Vcd));
    assert!(!Library::RustVcd.supports(Format::Fst));
    assert!(!Library::Fstapi.supports(Format::Vcd));
}

#[test]
fn operations_in_order() {
    assert_eq!(
        operations(),
        vec![
            Operation::FullParse,
            Operation::SignalList,
            Operation::ValueQuery,
            Operation::Pipeline
        ]
    );
}

#[test]
fn empty_listings_fail() {
    assert_eq!(require_variables(0), Err("no variables found".to_string()));
    assert_eq!(require_variables(3), Ok(()));
    assert_eq!(require_signals(0), Err("no signals to query".to_string()));
    assert_eq!(require_signals(1), Ok(()));
}

#[test]
fn query_takes_first_ten_signals() {
    let all: Vec<u32> = (0..15).collect();
    let picked = select_for_query(all);
    assert_eq!(picked.len(), QUERY_LIMIT);
    assert_eq!(picked, (0..10).collect::<Vec<u32>>());
    assert_eq!(select_for_query(vec![7u8, 8]), vec![7u8, 8]);
    assert!(select_for_query(Vec::<u8>::new()).is_empty());
}

#[test]
fn selected_codes_are_found() {
    let codes = vec![4u64, 9, 33];
    assert!(is_selected(&codes, 9));
    assert!(!is_selected(&codes, 10));
    assert!(!is_selected(&[], 0));
}
