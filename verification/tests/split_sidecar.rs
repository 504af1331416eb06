//! Rows follow document ids through indexing, merges and deletes, for a sidecar that an
//! application registers.

use std::io;
use std::sync::Arc;

use bytes::Bytes;
use quickwit_extensions::{
    SidecarMergeSource, SidecarWriter, SplitSidecar, SplitSidecars, register_split_sidecar,
    split_sidecars,
};
use serde_json::Value;

const SIDECAR_FILE: &str = "test.rows";
const SIDECAR_FIELD: &str = "_side";

/// Rows are stored as lines: `-` for an empty row, else the payload.
struct TestSidecar {
    file_name: &'static str,
}

struct TestWriter {
    rows: Vec<Option<Bytes>>,
}

impl SplitSidecar for TestSidecar {
    fn file_name(&self) -> &str {
        self.file_name
    }

    fn extract(&self, doc: &mut serde_json::Map<String, Value>) -> Option<Bytes> {
        match doc.remove(SIDECAR_FIELD)? {
            Value::String(s) => Some(Bytes::from(s)),
            _ => None,
        }
    }

    fn new_writer(&self) -> io::Result<Box<dyn SidecarWriter>> {
        Ok(Box::new(TestWriter { rows: Vec::new() }))
    }

    fn merge(&self, sources: &[SidecarMergeSource]) -> io::Result<Vec<u8>> {
        let mut lines: Vec<String> = Vec::new();
        for source in sources {
            let rows: Vec<String> = match &source.data {
                Some(data) => lines_of(data),
                None => vec!["-".to_string(); source.num_docs as usize],
            };
            assert_eq!(rows.len(), source.num_docs as usize);
            match &source.alive_docs {
                Some(alive) => lines.extend(alive.iter().map(|&d| rows[d as usize].clone())),
                None => lines.extend(rows),
            }
        }
        Ok(lines.join("\n").into_bytes())
    }
}

impl SidecarWriter for TestWriter {
    fn push(&mut self, payload: Option<Bytes>) -> io::Result<()> {
        self.rows.push(payload);
        Ok(())
    }

    fn num_rows(&self) -> u32 {
        self.rows.len() as u32
    }

    fn finish(self: Box<Self>) -> io::Result<Vec<u8>> {
        let lines: Vec<String> = self
            .rows
            .iter()
            .map(|row| match row {
                Some(bytes) => String::from_utf8(bytes.to_vec()).unwrap(),
                None => "-".to_string(),
            })
            .collect();
        Ok(lines.join("\n").into_bytes())
    }
}

fn lines_of(file: &[u8]) -> Vec<String> {
    std::str::from_utf8(file)
        .unwrap()
        .lines()
        .map(str::to_string)
        .collect()
}

fn test_sidecars() -> SplitSidecars<dyn SplitSidecar> {
    let mut sidecars: SplitSidecars<dyn SplitSidecar> = SplitSidecars::new();
    register_split_sidecar(
        &mut sidecars,
        Arc::new(TestSidecar {
            file_name: SIDECAR_FILE,
        }),
    );
    sidecars
}

/// One split: the bodies of its documents and the contents of its sidecar file.
struct Split {
    bodies: Vec<String>,
    file: Vec<u8>,
}

fn json_doc(body: &str, side: Option<&str>) -> serde_json::Map<String, Value> {
    let mut doc = serde_json::Map::new();
    doc.insert("body".to_string(), Value::String(body.to_string()));
    if let Some(side) = side {
        doc.insert(SIDECAR_FIELD.to_string(), Value::String(side.to_string()));
    }
    doc
}

/// Index documents into one split: the payload is taken out of each document, and its row
/// pushed, before the next document comes.
fn add_documents(
    sidecars: &SplitSidecars<dyn SplitSidecar>,
    docs: Vec<serde_json::Map<String, Value>>,
) -> Split {
    let registered = split_sidecars(sidecars);
    assert_eq!(registered.len(), 1);
    let sidecar = &registered[0];
    assert_eq!(sidecar.file_name(), SIDECAR_FILE);
    let mut writer = sidecar.new_writer().unwrap();
    let mut bodies = Vec::new();
    for mut doc in docs {
        let payload = sidecar.extract(&mut doc);
        // The mapping is strict and does not declare the sidecar's field.
        assert_eq!(doc.keys().collect::<Vec<_>>(), vec!["body"]);
        bodies.push(doc["body"].as_str().unwrap().to_string());
        writer.push(payload).unwrap();
        assert_eq!(writer.num_rows() as usize, bodies.len());
    }
    Split {
        bodies,
        file: writer.finish().unwrap(),
    }
}

#[test]
fn test_sidecar_rows_follow_document_ids_and_ship_in_the_bundle() {
    let sidecars = test_sidecars();
    let split = add_documents(
        &sidecars,
        vec![
            json_doc("zero", Some("s0")),
            json_doc("one", None),
            json_doc("two", Some("s2")),
        ],
    );
    assert_eq!(
        lines_of(&split.file),
        vec!["s0".to_string(), "-".to_string(), "s2".to_string()]
    );
}

fn doc(i: usize) -> serde_json::Map<String, Value> {
    // Every other document has no sidecar payload: holes must survive merges too.
    let body = format!("d{i}");
    if i % 2 == 0 {
        json_doc(&body, Some(&body))
    } else {
        json_doc(&body, None)
    }
}

/// The row a document should have in the sidecar.
fn expected_row(body: &str) -> String {
    let i: usize = body[1..].parse().unwrap();
    if i % 2 == 0 {
        body.to_string()
    } else {
        "-".to_string()
    }
}

/// Merge splits, keeping the documents that `alive` names in each.
fn run_merge(
    sidecars: &SplitSidecars<dyn SplitSidecar>,
    splits: Vec<Split>,
    alive: Vec<Option<Vec<u32>>>,
) -> Split {
    let mut bodies = Vec::new();
    let mut sources = Vec::new();
    for (split, alive_docs) in splits.into_iter().zip(alive) {
        match &alive_docs {
            Some(ids) => bodies.extend(ids.iter().map(|&d| split.bodies[d as usize].clone())),
            None => bodies.extend(split.bodies.iter().cloned()),
        }
        sources.push(SidecarMergeSource {
            num_docs: split.bodies.len() as u32,
            data: Some(split.file),
            alive_docs,
        });
    }
    let file = split_sidecars(sidecars)[0].merge(&sources).unwrap();
    Split { bodies, file }
}

/// Check that row `i` of the merged sidecar belongs to merged document `i`.
fn assert_rows_follow_documents(split: &Split) -> usize {
    let rows = lines_of(&split.file);
    assert_eq!(rows.len(), split.bodies.len());
    for (doc_id, body) in split.bodies.iter().enumerate() {
        assert_eq!(rows[doc_id], expected_row(body), "doc {doc_id}");
    }
    rows.len()
}

#[test]
fn test_merge_stacks_sidecar_rows_in_segment_order() {
    let sidecars = test_sidecars();
    // Three splits of different sizes: any mix-up of source order shows up as misalignment.
    let mut next = 0;
    let mut splits = Vec::new();
    for size in [3, 5, 2] {
        splits.push(add_documents(
            &sidecars,
            (next..next + size).map(doc).collect::<Vec<_>>(),
        ));
        next += size;
    }
    assert_eq!(splits.len(), 3);
    let merged = run_merge(&sidecars, splits, vec![None, None, None]);
    assert_eq!(assert_rows_follow_documents(&merged), 10);
}

#[test]
fn test_delete_and_merge_drops_rows_of_deleted_documents() {
    let sidecars = test_sidecars();
    let split = add_documents(&sidecars, (0..8).map(doc).collect::<Vec<_>>());
    // body:d0 OR body:d3 OR body:d4 OR body:d7
    let deleted = ["d0", "d3", "d4", "d7"];
    let alive: Vec<u32> = (0..split.bodies.len() as u32)
        .filter(|&d| !deleted.contains(&split.bodies[d as usize].as_str()))
        .collect();
    let merged = run_merge(&sidecars, vec![split], vec![Some(alive)]);
    assert_eq!(
        assert_rows_follow_documents(&merged),
        4,
        "d1 d2 d5 d6 remain"
    );
    assert_eq!(merged.bodies, ["d1", "d2", "d5", "d6"]);
}

#[test]
fn a_split_without_a_sidecar_gets_empty_rows() {
    let sidecars = test_sidecars();
    let sources = [
        SidecarMergeSource {
            data: None,
            num_docs: 3,
            alive_docs: Some(vec![0, 2]),
        },
        SidecarMergeSource {
            data: Some(b"a\nb".to_vec()),
            num_docs: 2,
            alive_docs: None,
        },
    ];
    let file = split_sidecars(&sidecars)[0].merge(&sources).unwrap();
    assert_eq!(lines_of(&file), ["-", "-", "a", "b"]);
}

#[test]
fn no_range_is_kept_hot_unless_the_sidecar_says_so() {
    let sidecars = test_sidecars();
    assert!(split_sidecars(&sidecars)[0].hotcache_ranges(b"abc").is_empty());
}

fn named(file_name: &'static str) -> Arc<dyn SplitSidecar> {
    Arc::new(TestSidecar { file_name })
}

fn files(sidecars: &SplitSidecars<dyn SplitSidecar>) -> Vec<String> {
    split_sidecars(sidecars)
        .iter()
        .map(|sidecar| sidecar.file_name().to_string())
        .collect()
}

#[test]
fn sidecars_are_listed_in_registration_order() {
    let mut sidecars: SplitSidecars<dyn SplitSidecar> = SplitSidecars::new();
    assert!(files(&sidecars).is_empty());
    for name in ["a.rows", "b.rows", "c.rows"] {
        register_split_sidecar(&mut sidecars, named(name));
    }
    assert_eq!(files(&sidecars), ["a.rows", "b.rows", "c.rows"]);
}

#[test]
fn a_second_sidecar_with_the_same_file_name_replaces_the_first() {
    let mut sidecars: SplitSidecars<dyn SplitSidecar> = SplitSidecars::new();
    let first = named("a.rows");
    let second = named("a.rows");
    register_split_sidecar(&mut sidecars, first.clone());
    register_split_sidecar(&mut sidecars, named("b.rows"));
    register_split_sidecar(&mut sidecars, second.clone());
    assert_eq!(files(&sidecars), ["b.rows", "a.rows"]);
    let registered = split_sidecars(&sidecars);
    assert!(Arc::ptr_eq(&registered[1], &second));
    assert!(!Arc::ptr_eq(&registered[1], &first));
}
