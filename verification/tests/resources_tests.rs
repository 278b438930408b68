use sbrga::resources::resource_name_to_path;
use sbrga::resources::ResError;
use sbrga::resources::Resources;
use sbrga::shader::has_suffix;
use sbrga::shader::program_stages;
use sbrga::shader::ShaderError;
use sbrga::shader::ShaderKind;

fn strings(parts: &[&str]) -> Vec<String> {
    parts.iter().map(|p| p.to_string()).collect()
}

#[test]
fn a_resource_name_is_split_at_its_slashes() {
    let root = strings(&["opt", "sbrga", "assets"]);
    assert_eq!(
        resource_name_to_path(&root, "shaders/stroke.vert"),
        strings(&["opt", "sbrga", "assets", "shaders", "stroke.vert"])
    );
    assert_eq!(resource_name_to_path(&root, "a"), strings(&["opt", "sbrga", "assets", "a"]));
    assert_eq!(resource_name_to_path(&vec![], "x/y/z"), strings(&["x", "y", "z"]));
}

#[test]
fn empty_pieces_are_kept() {
    let root = strings(&["r"]);
    assert_eq!(resource_name_to_path(&root, ""), strings(&["r", ""]));
    assert_eq!(resource_name_to_path(&root, "/"), strings(&["r", "", ""]));
    assert_eq!(resource_name_to_path(&root, "a//b"), strings(&["r", "a", "", "b"]));
    assert_eq!(resource_name_to_path(&root, "/a/"), strings(&["r", "", "a", ""]));
}

#[test]
fn a_name_is_split_by_characters_not_by_bytes() {
    let root = strings(&["würfel"]);
    assert_eq!(
        resource_name_to_path(&root, "größe/日本語/x"),
        strings(&["würfel", "größe", "日本語", "x"])
    );
    assert_eq!(resource_name_to_path(&root, "a\\b"), strings(&["würfel", "a\\b"]));
}

#[test]
fn resources_lie_below_the_directory_of_the_program() {
    let r = Resources::from_relative_exe_path(Some(strings(&["usr", "bin"])), "assets").unwrap();
    assert_eq!(r.path_of("shaders/stroke.frag"), strings(&["usr", "bin", "assets", "shaders", "stroke.frag"]));
    let nested = Resources::from_relative_exe_path(Some(vec![]), "a/b").unwrap();
    assert_eq!(nested.path_of("c"), strings(&["a", "b", "c"]));
}

#[test]
fn without_the_directory_of_the_program_there_are_no_resources() {
    assert!(matches!(
        Resources::from_relative_exe_path(None, "assets"),
        Err(ResError::FailedToGetExePath)
    ));
}

#[test]
fn a_resource_with_a_zero_byte_is_refused() {
    assert_eq!(Resources::load_cstring(b"void main() {}".to_vec()).unwrap(), b"void main() {}".to_vec());
    assert_eq!(Resources::load_cstring(vec![]).unwrap(), Vec::<u8>::new());
    assert!(matches!(Resources::load_cstring(vec![0]), Err(ResError::FileContainsNil)));
    assert!(matches!(Resources::load_cstring(vec![1, 2, 0, 3]), Err(ResError::FileContainsNil)));
    assert!(matches!(Resources::load_cstring(vec![1, 2, 3, 0]), Err(ResError::FileContainsNil)));
    assert!(Resources::load_cstring(vec![255, 1, 128]).is_ok());
}

#[test]
fn the_extension_tells_the_kind_of_a_shader() {
    assert_eq!(ShaderKind::from_res("shaders/stroke.vert").unwrap(), ShaderKind::Vertex);
    assert_eq!(ShaderKind::from_res("shaders/stroke.frag").unwrap(), ShaderKind::Fragment);
    assert_eq!(ShaderKind::from_res(".vert").unwrap(), ShaderKind::Vertex);
    assert_eq!(ShaderKind::from_res("a.frag.vert").unwrap(), ShaderKind::Vertex);
    assert_eq!(ShaderKind::from_res("a.vert.frag").unwrap(), ShaderKind::Fragment);
}

#[test]
fn a_name_without_a_known_extension_has_no_kind() {
    for name in ["shaders/stroke", "", "vert", "a.vert ", "a.VERT", "a.geom", "frag", "a.fra"] {
        match ShaderKind::from_res(name) {
            Err(ShaderError::CanNotDetermineShaderTypeForResource { name: n }) => assert_eq!(n, name),
            other => panic!("{:?} for {:?}", other, name),
        }
    }
}

#[test]
fn a_program_has_a_vertex_and_a_fragment_stage() {
    let (vertex, fragment) = program_stages("shaders/stroke");
    assert_eq!(vertex, "shaders/stroke.vert");
    assert_eq!(fragment, "shaders/stroke.frag");
    assert_eq!(ShaderKind::from_res(&vertex).unwrap(), ShaderKind::Vertex);
    assert_eq!(ShaderKind::from_res(&fragment).unwrap(), ShaderKind::Fragment);
    assert_eq!(program_stages(""), (".vert".to_string(), ".frag".to_string()));
}

#[test]
fn suffixes() {
    assert!(has_suffix("abc", "bc"));
    assert!(has_suffix("abc", "abc"));
    assert!(has_suffix("abc", ""));
    assert!(has_suffix("", ""));
    assert!(!has_suffix("abc", "ab"));
    assert!(!has_suffix("bc", "abc"));
    assert!(!has_suffix("", "a"));
    assert!(has_suffix("größe", "öße"));
    assert!(!has_suffix("große", "öße"));
}
