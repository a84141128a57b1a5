use revision::ast::attributes::{
	build_history_entry, resolve_history, AttributeError, AttributeOptions, ItemOption, ItemOptions,
	RevisionEntryGroup, RevisionEntryOption,
};
use revision::ast::history::{Encoding, HistoryEntry, MapEncoding, StructEncoding};
use revision::expand::context::EncodingContext;

fn entry(revision: usize, options: Vec<RevisionEntryOption>) -> ItemOption {
	ItemOption::RevisionEntry(RevisionEntryGroup {
		revision,
		options,
	})
}

#[test]
fn legacy_revision_synthesises_history() {
	let opts = ItemOptions::finish(vec![ItemOption::Revision(3)]).unwrap();
	assert_eq!(opts.revision, Some(3));
	assert_eq!(opts.current_revision(), Some(3));
	assert_eq!(opts.history.len(), 3);
	for (i, h) in opts.history.iter().enumerate() {
		assert_eq!(*h, HistoryEntry::legacy(i + 1, true));
	}
	assert!(opts.serialize && opts.deserialize);
	assert_eq!(opts.skip, None);
}

#[test]
fn new_style_entries_are_sorted() {
	let opts = ItemOptions::finish(vec![
		entry(2, vec![RevisionEntryOption::Encoding(String::from("optimised"))]),
		entry(1, vec![]),
		ItemOption::Walk(false),
	])
	.unwrap();
	assert_eq!(opts.revision, Some(2));
	assert_eq!(opts.history[0].revision, 1);
	assert_eq!(opts.history[0].encoding, Encoding::Legacy);
	assert!(!opts.history[0].from_legacy);
	assert_eq!(opts.history[1].revision, 2);
	assert!(opts.history[1].is_optimised());
	assert_eq!(opts.walk, Some(false));
}

#[test]
fn history_errors() {
	let r = ItemOptions::finish(vec![entry(1, vec![]), entry(1, vec![])]);
	assert!(matches!(r, Err(AttributeError::DuplicateRevision(1))));
	let r = ItemOptions::finish(vec![entry(1, vec![]), entry(3, vec![])]);
	assert!(matches!(
		r,
		Err(AttributeError::NonContiguousRevisions {
			expected: 2,
			found: 3
		})
	));
	let r = ItemOptions::finish(vec![entry(0, vec![])]);
	assert!(matches!(
		r,
		Err(AttributeError::NonContiguousRevisions {
			expected: 1,
			found: 0
		})
	));
	let r = ItemOptions::finish(vec![ItemOption::Revision(1), entry(1, vec![])]);
	assert!(matches!(r, Err(AttributeError::MixedRevisionSyntax)));
	let r = ItemOptions::finish(vec![ItemOption::Revision(0)]);
	assert!(matches!(r, Err(AttributeError::RevisionZero)));
	let r = ItemOptions::finish(vec![ItemOption::Revision(1), ItemOption::Revision(2)]);
	assert!(matches!(r, Err(AttributeError::OptionSetTwice)));
	let none = ItemOptions::finish(vec![ItemOption::Serialize(false)]).unwrap();
	assert!(none.history.is_empty());
	assert_eq!(none.revision, None);
	assert!(!none.serialize);
}

#[test]
fn entry_options() {
	let e = build_history_entry(RevisionEntryGroup {
		revision: 4,
		options: vec![
			RevisionEntryOption::Encoding(String::from("optimised")),
			RevisionEntryOption::StructKind(String::from("indexed")),
			RevisionEntryOption::MapKind(String::from("default")),
		],
	})
	.unwrap();
	assert_eq!(e.revision, 4);
	assert_eq!(e.struct_kind, StructEncoding::Indexed);
	assert_eq!(e.map, MapEncoding::Default);
	let r = build_history_entry(RevisionEntryGroup {
		revision: 1,
		options: vec![RevisionEntryOption::StructKind(String::from("indexed"))],
	});
	assert!(matches!(r, Err(AttributeError::EncodingAttributesRequireOptimised)));
	let r = build_history_entry(RevisionEntryGroup {
		revision: 1,
		options: vec![RevisionEntryOption::MapKind(String::from("indexed"))],
	});
	assert!(matches!(r, Err(AttributeError::TypeLevelIndexedMap)));
	// Naming an encoding-specific option needs `encoding = "optimised"`, whatever its value.
	let r = build_history_entry(RevisionEntryGroup {
		revision: 1,
		options: vec![RevisionEntryOption::StructKind(String::from("default"))],
	});
	assert!(matches!(r, Err(AttributeError::EncodingAttributesRequireOptimised)));
	let r = build_history_entry(RevisionEntryGroup {
		revision: 1,
		options: vec![
			RevisionEntryOption::Encoding(String::from("legacy")),
			RevisionEntryOption::SeqKind(String::from("default")),
		],
	});
	assert!(matches!(r, Err(AttributeError::EncodingAttributesRequireOptimised)));
	match build_history_entry(RevisionEntryGroup {
		revision: 1,
		options: vec![RevisionEntryOption::Encoding(String::from("fast"))],
	}) {
		Err(AttributeError::UnknownEncoding(s)) => assert_eq!(s, "fast"),
		other => panic!("unexpected {:?}", other),
	}
}

#[test]
fn resolve_history_directly() {
	let h = resolve_history(None, vec![HistoryEntry::legacy(2, false), HistoryEntry::legacy(1, false)])
		.unwrap();
	assert_eq!(h.iter().map(|e| e.revision).collect::<Vec<_>>(), vec![1, 2]);
	assert!(resolve_history(None, vec![]).unwrap().is_empty());
}

#[test]
fn encoding_context() {
	let mut e = HistoryEntry::legacy(70000, false);
	e.encoding = Encoding::Optimised;
	e.struct_kind = StructEncoding::Indexed;
	let ctx = EncodingContext::from_entry(&e);
	assert_eq!(ctx.revision, (70000usize % 65536) as u16);
	assert!(ctx.is_optimised());
	assert!(ctx.struct_is_indexed());
	let legacy = EncodingContext::legacy(3);
	assert_eq!(legacy.revision, 3);
	assert!(!legacy.is_optimised());
	assert!(!legacy.struct_is_indexed());
}
