use codira::language_server::{FilesWatcher, SymbolKind};
use codira::libloader::CodiraLibrary;
use codira::lld::{LldFlavor, LldResult};
use codira::memory::ArrayHeader;
use codira::refinement_check::RefinementCheckResult;

#[test]
fn link_outcome_maps_to_a_result() {
    assert_eq!(LldResult::new(true, "ignored".to_string()).ok(), Ok(()));
    assert_eq!(
        LldResult::new(false, "undefined symbol: main".to_string()).ok(),
        Err("undefined symbol: main".to_string())
    );
    assert_ne!(LldFlavor::Elf, LldFlavor::Coff);
}

#[test]
fn library_hands_back_what_it_holds() {
    let lib = CodiraLibrary(vec![1u8, 2, 3]);
    assert_eq!(lib.into_inner(), vec![1, 2, 3]);
}

#[test]
fn plain_vocabulary_types() {
    assert!(SymbolKind::Field < SymbolKind::TypeAlias);
    assert_ne!(FilesWatcher::Client, FilesWatcher::Notify);
    let header = ArrayHeader { length: 2, capacity: 4 };
    assert!(header.length <= header.capacity);
    assert_ne!(RefinementCheckResult::Satisfiable, RefinementCheckResult::Unsatisfiable);
}
