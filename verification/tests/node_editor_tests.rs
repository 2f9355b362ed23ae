use lifec::attributes::AttributeGraph;
use lifec::node_editor::{NodeEditorStep, NodeEditors};
use lifec::section::Section;

fn section() -> Section<u8> {
    Section::new("Nodes", AttributeGraph::new(3), 5u8, &vec![])
}

#[test]
fn enabling_opens_once_then_updates() {
    let mut editors: NodeEditors<u8> = NodeEditors::new();
    let s = section();
    assert!(matches!(editors.step(3, Some(true), Some(&s)), NodeEditorStep::Open));
    assert!(editors.is_open(3));
    assert!(matches!(editors.step(3, Some(true), Some(&s)), NodeEditorStep::Update));
    assert!(matches!(editors.step(3, None, Some(&s)), NodeEditorStep::Nothing));
    assert!(editors.is_open(3));
}

#[test]
fn disabling_hands_back_the_editable_section() {
    let mut editors: NodeEditors<u8> = NodeEditors::new();
    let s = section();
    assert!(!s.enable_edit_attributes);
    editors.step(3, Some(true), Some(&s));
    match editors.step(3, Some(false), None) {
        NodeEditorStep::Load(back) => {
            assert_eq!(back.title().as_str(), "Nodes");
            assert!(back.enable_edit_attributes);
        }
        _ => panic!("expected the kept section"),
    }
    assert!(!editors.is_open(3));
    assert!(matches!(editors.step(3, Some(false), None), NodeEditorStep::Nothing));
}

#[test]
fn an_editor_without_a_section_just_closes() {
    let mut editors: NodeEditors<u8> = NodeEditors::new();
    assert!(matches!(editors.step(8, Some(true), None), NodeEditorStep::Open));
    assert!(matches!(editors.step(8, Some(false), None), NodeEditorStep::Close));
    assert!(!editors.is_open(8));
}
