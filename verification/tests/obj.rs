use mass_raytrace::eve::{EveFilter, Hull, Livery};
use mass_raytrace::mtl::{
    material_statement, read_material_library, FaceMaterial, MaterialEntry, MaterialStatement,
    SimpleTexturedBuilder, SimpleTexturedBuilderError,
};
use mass_raytrace::obj::{
    Corner, Malformation, ObjAction, ObjBuilder, ObjContext, ObjError, ObjGroupFilter, ObjLoader,
    Statement,
};
use mass_raytrace::texture::{BlendMode, WrapMode};

fn number(word: &[u8]) -> f32 {
    std::str::from_utf8(word).unwrap().parse().unwrap()
}

fn name(context: Option<&Vec<u8>>) -> Option<String> {
    context.map(|n| String::from_utf8(n.clone()).unwrap())
}

/// Collects what it is handed, and leaves out the groups that its filter does.
struct Recorder<F: ObjGroupFilter> {
    filter: F,
    libraries: Vec<String>,
    groups_asked: Vec<Option<String>>,
    refuse_material: Option<String>,
}

impl<F: ObjGroupFilter> Recorder<F> {
    fn new(filter: F) -> Self {
        Recorder { filter, libraries: Vec::new(), groups_asked: Vec::new(), refuse_material: None }
    }
}

#[derive(Debug, PartialEq)]
struct Face {
    corners: [([f32; 3], [f32; 3], [f32; 2]); 3],
    group: Option<String>,
    material: Option<String>,
}

impl<F: ObjGroupFilter> ObjBuilder for Recorder<F> {
    type Vertex = [f32; 3];
    type Normal = [f32; 3];
    type Texture = [f32; 2];
    type Face = Face;
    type Error = String;

    fn include_group(&mut self, context: &ObjContext) -> bool {
        self.groups_asked.push(name(context.group()));
        self.filter.include_group(context.group())
    }

    fn load_materials(&mut self, context: &ObjContext) {
        self.libraries.push(name(context.material_library()).unwrap());
    }

    fn build_vertex(&mut self, _context: &ObjContext, x: &[u8], y: &[u8], z: &[u8]) -> [f32; 3] {
        [number(x), number(y), number(z)]
    }

    fn build_normal(&mut self, _context: &ObjContext, x: &[u8], y: &[u8], z: &[u8]) -> [f32; 3] {
        [number(x), number(y), number(z)]
    }

    fn build_uv(&mut self, _context: &ObjContext, x: &[u8], y: &[u8]) -> [f32; 2] {
        [number(x), 1.0 - number(y)]
    }

    fn build_face(
        &mut self,
        context: &ObjContext,
        a: ([f32; 3], [f32; 3], [f32; 2]),
        b: ([f32; 3], [f32; 3], [f32; 2]),
        c: ([f32; 3], [f32; 3], [f32; 2]),
    ) -> Result<Face, String> {
        let material = name(context.material());
        if material.is_some() && material == self.refuse_material {
            return Err(format!("no material {:?}", material));
        }
        Ok(Face { corners: [a, b, c], group: name(context.group()), material })
    }
}

const SQUARE: &str = "# a square\nmtllib my materials.mtl\nv 0 0 0\nv 1 0 0\nv 1 1 0\nv 0 1 0\nvn 0 0 1\nvt 0 0\nvt 1 0\nvt 1 1\nvt 0 1\ng front\nusemtl red\nf 1/1/1 2/2/1 3/3/1\ng glass\nusemtl clear\nf 1/1/1 3/3/1 4/4/1\n";

#[test]
fn obj_faces_come_with_their_corners_and_context() {
    let mut builder = Recorder::new(());
    let faces = ObjLoader::load(SQUARE.as_bytes(), &mut builder).unwrap();
    assert_eq!(faces.len(), 2);
    assert_eq!(
        faces[0],
        Face {
            corners: [
                ([0.0, 0.0, 0.0], [0.0, 0.0, 1.0], [0.0, 1.0]),
                ([1.0, 0.0, 0.0], [0.0, 0.0, 1.0], [1.0, 1.0]),
                ([1.0, 1.0, 0.0], [0.0, 0.0, 1.0], [1.0, 0.0]),
            ],
            group: Some("front".to_string()),
            material: Some("red".to_string()),
        }
    );
    assert_eq!(faces[1].group, Some("glass".to_string()));
    assert_eq!(faces[1].material, Some("clear".to_string()));
    assert_eq!(faces[1].corners[2].0, [0.0, 1.0, 0.0]);
    assert_eq!(builder.libraries, ["my materials.mtl"]);
    assert_eq!(
        builder.groups_asked,
        [None, Some("front".to_string()), Some("glass".to_string())]
    );
}

#[test]
fn obj_faces_of_unwanted_groups_are_left_out_unread() {
    let mut builder = Recorder::new(EveFilter);
    let text = "v 0 0 0\nvn 0 0 1\nvt 0 0\nf 1/1/1 1/1/1 1/1/1\ng Hull\nf 1/1/1 1/1/1 1/1/1\ng other\nf not a face\ng glass\nf 1//1 1//1 1//1\n";
    let faces = ObjLoader::load(text.as_bytes(), &mut builder).unwrap();
    assert_eq!(faces.len(), 2);
    assert_eq!(faces[0].group, Some("Hull".to_string()));
    assert_eq!(faces[1].group, Some("glass".to_string()));
}

fn malformed(text: &str) -> ObjError<String> {
    let mut builder = Recorder::new(());
    match ObjLoader::load(text.as_bytes(), &mut builder) {
        Err(e) => e,
        Ok(faces) => panic!("read {} faces of {:?}", faces.len(), text),
    }
}

#[test]
fn obj_malformed_lines_are_reported_with_the_line() {
    assert!(matches!(malformed("v 1 2\n"), ObjError::Vertex(l) if l == b"v 1 2\n"));
    assert!(matches!(malformed("v 1 2 x\n"), ObjError::Vertex(l) if l == b"v 1 2 x\n"));
    assert!(matches!(malformed("v 0 0 0\nvn 1 0\n"), ObjError::Normal(l) if l == b"vn 1 0\n"));
    assert!(matches!(malformed("vt 1\n"), ObjError::TextureCoordinate(l) if l == b"vt 1\n"));
    assert!(matches!(malformed("vt 0.5 half"), ObjError::TextureCoordinate(l) if l == b"vt 0.5 half"));
    assert!(matches!(malformed("v 0 0 0\nf 1/1/1 1/1/1 1/1/1\n"), ObjError::Face(l) if l == b"f 1/1/1 1/1/1 1/1/1\n"));
    assert!(matches!(malformed("v 0 0 0\nvn 0 0 1\nvt 0 0\nf 1/1/1 1/1/1\n"), ObjError::Face(_)));
    assert!(matches!(malformed("v 0 0 0\nvn 0 0 1\nvt 0 0\nf 1/1/1 1/1/1 2/1/1\n"), ObjError::Face(_)));
    assert!(matches!(malformed("v 0 0 0\nvn 0 0 1\nvt 0 0\nf 0/1/1 1/1/1 1/1/1\n"), ObjError::Face(_)));
}

#[test]
fn obj_builder_errors_end_the_reading() {
    let mut builder = Recorder::new(());
    builder.refuse_material = Some("clear".to_string());
    match ObjLoader::load(SQUARE.as_bytes(), &mut builder) {
        Err(ObjError::Builder(message)) => assert!(message.contains("clear")),
        other => panic!("unexpected: {:?}", other.map(|f| f.len())),
    }
}

#[test]
fn obj_file_without_faces_gives_none() {
    let mut builder = Recorder::new(());
    assert_eq!(ObjLoader::load(b"", &mut builder).unwrap().len(), 0);
    assert_eq!(ObjLoader::load(b"v 1 2 3\nvn 0 1e0 -.5\nvt +1. inf\n# f\n", &mut builder).unwrap().len(), 0);
}

#[test]
fn obj_statements_are_told_apart_by_their_first_word() {
    assert!(matches!(ObjLoader::statement(b"v 1 2.5 -3e2 1.0\n"), Statement::Vertex(x, y, z) if x == b"1" && y == b"2.5" && z == b"-3e2"));
    assert!(matches!(ObjLoader::statement(b"  vn\t0 0 1\r\n"), Statement::Normal(_, _, z) if z == b"1"));
    assert!(matches!(ObjLoader::statement(b"vt 0.25 0.75"), Statement::TextureCoordinate(u, v) if u == b"0.25" && v == b"0.75"));
    assert!(matches!(ObjLoader::statement(b"f 1/2/3 4/5/6 7/8/9 10/11/12"), Statement::Face(c) if c.len() == 4 && c[3] == b"10/11/12"));
    assert!(matches!(ObjLoader::statement(b"f"), Statement::Face(c) if c.is_empty()));
    assert!(matches!(ObjLoader::statement(b"g wing left"), Statement::Group(n) if n == b"wing"));
    assert!(matches!(ObjLoader::statement(b"o ship"), Statement::Group(n) if n == b"ship"));
    assert!(matches!(ObjLoader::statement(b"g"), Statement::Other));
    assert!(matches!(ObjLoader::statement(b"usemtl steel"), Statement::UseMaterial(n) if n == b"steel"));
    assert!(matches!(ObjLoader::statement(b"usemtl"), Statement::Other));
    assert!(matches!(ObjLoader::statement(b"mtllib  a   b.mtl "), Statement::MaterialLibrary(n) if n == b"a b.mtl"));
    assert!(matches!(ObjLoader::statement(b"mtllib"), Statement::MaterialLibrary(n) if n.is_empty()));
    assert!(matches!(ObjLoader::statement(b"v 1 2"), Statement::Malformed(Malformation::Vertex)));
    assert!(matches!(ObjLoader::statement(b"vn a b c"), Statement::Malformed(Malformation::Normal)));
    assert!(matches!(ObjLoader::statement(b"vt 1"), Statement::Malformed(Malformation::TextureCoordinate)));
    assert!(matches!(ObjLoader::statement(b"# v 1 2 3"), Statement::Other));
    assert!(matches!(ObjLoader::statement(b"s off"), Statement::Other));
    assert!(matches!(ObjLoader::statement(b""), Statement::Other));
    assert!(matches!(ObjLoader::statement(b"V 1 2 3"), Statement::Other));
}

#[test]
fn obj_corners_count_from_one() {
    assert_eq!(ObjLoader::corner(b"1/2/3", 5, 5, 5), Some(Corner { vertex: 0, texture: 1, normal: 2 }));
    assert_eq!(ObjLoader::corner(b"5/5/5", 5, 5, 5), Some(Corner { vertex: 4, texture: 4, normal: 4 }));
    assert_eq!(ObjLoader::corner(b"6/5/5", 5, 5, 5), None);
    assert_eq!(ObjLoader::corner(b"5/6/5", 5, 5, 5), None);
    assert_eq!(ObjLoader::corner(b"5/5/6", 5, 5, 5), None);
    assert_eq!(ObjLoader::corner(b"0/1/1", 5, 5, 5), None);
    assert_eq!(ObjLoader::corner(b"1/2", 5, 5, 5), None);
    assert_eq!(ObjLoader::corner(b"1", 5, 5, 5), None);
    assert_eq!(ObjLoader::corner(b"", 5, 5, 5), None);
    // pieces that spell no number are passed over
    assert_eq!(ObjLoader::corner(b"1/x/2/3", 5, 5, 5), Some(Corner { vertex: 0, texture: 1, normal: 2 }));
    assert_eq!(ObjLoader::corner(b"1/2/3/4", 5, 5, 5), Some(Corner { vertex: 0, texture: 1, normal: 2 }));
}

#[test]
fn obj_corners_without_texture_take_the_first() {
    assert_eq!(ObjLoader::corner(b"2//3", 5, 5, 5), Some(Corner { vertex: 1, texture: 0, normal: 2 }));
    assert_eq!(ObjLoader::corner(b"2//3", 5, 0, 5), None);
    assert_eq!(ObjLoader::corner(b"2//", 5, 5, 5), None);
    assert_eq!(ObjLoader::corner(b"//2", 5, 5, 5), None);
    assert_eq!(ObjLoader::corner(b"2//6", 5, 5, 5), None);
    let corners = vec![b"1//1".to_vec(), b"2//1".to_vec(), b"3//1".to_vec()];
    let (a, b, c) = ObjLoader::face(&corners, 3, 1, 1).unwrap();
    assert_eq!((a.vertex, b.vertex, c.vertex), (0, 1, 2));
    assert_eq!(ObjLoader::face(&corners, 2, 1, 1), None);
    assert_eq!(ObjLoader::face(&corners[..2].to_vec(), 3, 1, 1), None);
}

#[test]
fn obj_context_names_what_was_named_last() {
    let mut context = ObjContext::new();
    assert_eq!(context.group(), None);
    assert_eq!(context.material(), None);
    assert_eq!(context.material_library(), None);
    context.enter_group(b"hull".to_vec());
    context.use_material(b"steel".to_vec());
    context.use_library(b"ship.mtl".to_vec());
    context.enter_group(b"glass".to_vec());
    assert_eq!(context.group(), Some(&b"glass".to_vec()));
    assert_eq!(context.material(), Some(&b"steel".to_vec()));
    assert_eq!(context.material_library(), Some(&b"ship.mtl".to_vec()));
    let fresh = ObjContext::default();
    assert_eq!(fresh.group(), None);
}

#[test]
fn eve_filter_keeps_hull_glass_and_exhaust() {
    for group in ["Hull", "hull", "Glass", "glass", "DarkHull", "exhaust", "Exhaust"] {
        assert!(EveFilter.include_group(Some(&group.as_bytes().to_vec())), "{}", group);
    }
    for group in ["", "HULL", "darkhull", "Hull ", "engine", "Booster"] {
        assert!(!EveFilter.include_group(Some(&group.as_bytes().to_vec())), "{}", group);
    }
    assert!(!EveFilter.include_group(None));
    assert!(().include_group(None));
    assert!(().include_group(Some(&b"anything".to_vec())));
}

#[test]
fn hulls_name_their_files() {
    assert_eq!(Hull::Venture.directory(), "oref1_t1");
    assert_eq!(Hull::Venture.model(), "OreF1_TShape1.obj");
    assert_eq!(Hull::Venture.paint_map(), "oref1_t1_pmdg.png");
    assert_eq!(Hull::Venture.livery(), Livery::Ore);
    assert_eq!(Hull::Raven.paint_map(), "cb1_t1_navy_pmdg.png");
    assert_eq!(Hull::Raven.livery(), Livery::Caldari);
    assert_eq!(Hull::Buzzard.livery(), Livery::Caldari);
    assert_eq!(Hull::Nestor.model(), "SoEB1_TShape2.obj");
    assert_eq!(Hull::Nestor.livery(), Livery::Soe);
    assert_eq!(Hull::Crow.directory(), "cf2_t2a");
    assert_eq!(Hull::Crow.model(), "CF2_T2aShape.obj");
    let all = [Hull::Astero, Hull::Avatar, Hull::Buzzard, Hull::Crow, Hull::Nestor, Hull::Orca,
        Hull::Raven, Hull::Rifter, Hull::Stratios, Hull::Venture];
    for hull in all {
        assert!(hull.paint_map().starts_with(hull.directory()));
        assert!(hull.model().ends_with(".obj"));
    }
}

#[test]
fn material_statements_are_told_apart() {
    assert!(matches!(material_statement(b"newmtl red\n"), MaterialStatement::NewMaterial(n) if n == b"red"));
    assert!(matches!(material_statement(b"newmtl\n"), MaterialStatement::Other));
    assert!(matches!(material_statement(b"  Kd 1 0.5 0\n"), MaterialStatement::Diffuse(r, g, b) if r == b"1" && g == b"0.5" && b == b"0"));
    assert!(matches!(material_statement(b"Kd 1 0.5\n"), MaterialStatement::Other));
    assert!(matches!(material_statement(b"Kd 1 0.5 blue\n"), MaterialStatement::Other));
    assert!(matches!(material_statement(b"map_Kd wall.png extra\n"), MaterialStatement::DiffuseMap(f) if f == b"wall.png"));
    assert!(matches!(material_statement(b"map_Kd"), MaterialStatement::Other));
    assert!(matches!(material_statement(b"Ks 1 1 1"), MaterialStatement::Other));
    assert!(matches!(material_statement(b""), MaterialStatement::Other));
}

#[test]
fn material_library_gives_each_entry_its_material() {
    let text = "Kd 1 1 1\nmap_Kd lost.png\nnewmtl red\nKd 1 0 0\nKa 0 0 0\nnewmtl wall\nmap_Kd wall.png\nKd 0.5 0.5 0.5\nKd bad\n";
    let entries = read_material_library(text.as_bytes());
    assert_eq!(entries.len(), 3);
    assert!(matches!(&entries[0], MaterialEntry::Diffuse(m, r, g, b) if m == b"red" && r == b"1" && g == b"0" && b == b"0"));
    assert!(matches!(&entries[1], MaterialEntry::Texture(m, f) if m == b"wall" && f == b"wall.png"));
    assert!(matches!(&entries[2], MaterialEntry::Diffuse(m, r, _, _) if m == b"wall" && r == b"0.5"));
    assert!(read_material_library(b"").is_empty());
}

#[test]
fn face_material_is_the_texture_then_the_colour() {
    let mut builder: SimpleTexturedBuilder<&str, [f32; 3]> = SimpleTexturedBuilder::new(WrapMode::Repeat);
    let mut context = ObjContext::new();
    assert!(matches!(builder.face_material(&context), Err(SimpleTexturedBuilderError::NoMaterialForFace)));
    context.use_material(b"wall".to_vec());
    assert!(matches!(builder.face_material(&context), Err(SimpleTexturedBuilderError::NoMaterialForFace)));
    builder.add_diffuse(b"wall".to_vec(), [0.5, 0.5, 0.5]);
    assert!(matches!(builder.face_material(&context), Ok(FaceMaterial::Diffuse(c)) if *c == [0.5, 0.5, 0.5]));
    builder.add_diffuse(b"wall".to_vec(), [1.0, 0.0, 0.0]);
    assert!(matches!(builder.face_material(&context), Ok(FaceMaterial::Diffuse(c)) if *c == [1.0, 0.0, 0.0]));
    builder.add_texture(b"wall".to_vec(), "first.png");
    builder.add_texture(b"floor".to_vec(), "floor.png");
    builder.add_texture(b"wall".to_vec(), "second.png");
    assert!(matches!(builder.face_material(&context), Ok(FaceMaterial::Texture(t)) if *t == "second.png"));
    context.use_material(b"floor".to_vec());
    assert!(matches!(builder.face_material(&context), Ok(FaceMaterial::Texture(t)) if *t == "floor.png"));
    context.use_material(b"sky".to_vec());
    assert!(builder.face_material(&context).is_err());
    assert_eq!(builder.wrapping, WrapMode::Repeat);
}

#[test]
fn filtered_groups_are_left_out() {
    let builder: SimpleTexturedBuilder<(), ()> =
        SimpleTexturedBuilder::with_filter(WrapMode::Clamp, vec![b"sky".to_vec(), b"water".to_vec()]);
    let mut context = ObjContext::new();
    assert!(builder.include_group(&context));
    context.enter_group(b"castle".to_vec());
    assert!(builder.include_group(&context));
    context.enter_group(b"water".to_vec());
    assert!(!builder.include_group(&context));
    context.enter_group(b"Water".to_vec());
    assert!(builder.include_group(&context));
    let all: SimpleTexturedBuilder<(), ()> = SimpleTexturedBuilder::new(WrapMode::Clamp);
    context.enter_group(b"water".to_vec());
    assert!(all.include_group(&context));
}

#[test]
fn wrap_modes_say_whether_a_sampler_knows_them() {
    assert!(WrapMode::Repeat.supported());
    assert!(WrapMode::Clamp.supported());
    assert!(!WrapMode::Mirror.supported());
    assert_ne!(BlendMode::Lighten, BlendMode::Darken);
    assert_ne!(BlendMode::Addition, BlendMode::Subtraction);
}

#[test]
fn obj_one_triangle_is_built_of_the_corners_that_its_line_names() {
    let mut builder = Recorder::new(());
    // the recorder turns the second texture coordinate upside down
    let text = "v 0 0 0\nv 1 0 0\nv 0 1 0\nvt 0.25 0.25\nvn 0 0 1\nf 1/1/1 2/1/1 3/1/1\n";
    let faces = ObjLoader::load(text.as_bytes(), &mut builder).unwrap();
    assert_eq!(faces.len(), 1);
    assert_eq!(
        faces[0].corners,
        [
            ([0.0, 0.0, 0.0], [0.0, 0.0, 1.0], [0.25, 0.75]),
            ([1.0, 0.0, 0.0], [0.0, 0.0, 1.0], [0.25, 0.75]),
            ([0.0, 1.0, 0.0], [0.0, 0.0, 1.0], [0.25, 0.75]),
        ]
    );
    assert_eq!(faces[0].group, None);
}

#[test]
fn obj_first_line_that_stops_the_reader_decides() {
    // the face comes first
    assert!(matches!(
        malformed("v 0 0 0\nf 1/1/1 1/1/1 1/1/1\nvn 1\n"),
        ObjError::Face(l) if l == b"f 1/1/1 1/1/1 1/1/1\n"
    ));
    // the normal comes first
    assert!(matches!(
        malformed("v 0 0 0\nvn 1\nf 1/1/1 1/1/1 1/1/1\nvt\n"),
        ObjError::Normal(l) if l == b"vn 1\n"
    ));
    // a refused face comes before a malformed line
    let mut builder = Recorder::new(());
    builder.refuse_material = Some("no".to_string());
    let text = "v 0 0 0\nvn 0 0 1\nvt 0 0\nusemtl no\nf 1/1/1 1/1/1 1/1/1\nv 1\n";
    assert!(matches!(ObjLoader::load(text.as_bytes(), &mut builder), Err(ObjError::Builder(_))));
}

#[test]
fn obj_step_says_what_to_do_with_a_line() {
    let mut context = ObjContext::new();
    match ObjLoader::step(b"v 1 2.5 -3\n", &mut context, 0, 0, 0, true) {
        Ok(ObjAction::Vertex(x, y, z)) => {
            assert_eq!((x.as_slice(), y.as_slice(), z.as_slice()), (&b"1"[..], &b"2.5"[..], &b"-3"[..]))
        }
        other => panic!("unexpected: {:?}", other),
    }
    assert!(matches!(
        ObjLoader::step(b"vn 0 0 1", &mut context, 0, 0, 0, true),
        Ok(ObjAction::Normal(_, _, _))
    ));
    match ObjLoader::step(b"vt 0.5 1\n", &mut context, 0, 0, 0, true) {
        Ok(ObjAction::Texture(u, v)) => assert_eq!((u.as_slice(), v.as_slice()), (&b"0.5"[..], &b"1"[..])),
        other => panic!("unexpected: {:?}", other),
    }
    assert!(matches!(
        ObjLoader::step(b"f 1/2/3 4/5/6 7/8/9\n", &mut context, 9, 9, 9, true),
        Ok(ObjAction::Face(
            Corner { vertex: 0, texture: 1, normal: 2 },
            Corner { vertex: 3, texture: 4, normal: 5 },
            Corner { vertex: 6, texture: 7, normal: 8 },
        ))
    ));
    assert!(matches!(
        ObjLoader::step(b"f 1/2/3 4/5/6 7/8/9\n", &mut context, 9, 9, 9, false),
        Ok(ObjAction::Nothing)
    ));
    assert!(matches!(
        ObjLoader::step(b"f 1/2/3 4/5/6 7/8/9\n", &mut context, 9, 9, 8, true),
        Err(ObjError::Face(l)) if l == b"f 1/2/3 4/5/6 7/8/9\n"
    ));
    assert!(matches!(
        ObjLoader::step(b"f 1/2/3 4/5/6 7/8/9\n", &mut context, 9, 9, 8, false),
        Ok(ObjAction::Nothing)
    ));
    assert!(matches!(
        ObjLoader::step(b"v 1 2\n", &mut context, 0, 0, 0, false),
        Err(ObjError::Vertex(l)) if l == b"v 1 2\n"
    ));
    assert!(matches!(
        ObjLoader::step(b"vn x 0 0\n", &mut context, 0, 0, 0, false),
        Err(ObjError::Normal(_))
    ));
    assert!(matches!(
        ObjLoader::step(b"vt 1\n", &mut context, 0, 0, 0, false),
        Err(ObjError::TextureCoordinate(_))
    ));
    assert_eq!(name(context.group()), None);

    assert!(matches!(ObjLoader::step(b"g hull\n", &mut context, 0, 0, 0, false), Ok(ObjAction::AskGroup)));
    assert_eq!(name(context.group()), Some("hull".to_string()));
    assert!(matches!(ObjLoader::step(b"o wing\n", &mut context, 0, 0, 0, true), Ok(ObjAction::AskGroup)));
    assert_eq!(name(context.group()), Some("wing".to_string()));
    assert!(matches!(ObjLoader::step(b"usemtl red\n", &mut context, 0, 0, 0, true), Ok(ObjAction::Nothing)));
    assert_eq!(name(context.material()), Some("red".to_string()));
    assert!(matches!(
        ObjLoader::step(b"mtllib my  materials.mtl\n", &mut context, 0, 0, 0, true),
        Ok(ObjAction::LoadMaterials)
    ));
    assert_eq!(name(context.material_library()), Some("my materials.mtl".to_string()));
    assert!(matches!(ObjLoader::step(b"# v 1\n", &mut context, 0, 0, 0, true), Ok(ObjAction::Nothing)));
    assert!(matches!(ObjLoader::step(b"\n", &mut context, 0, 0, 0, true), Ok(ObjAction::Nothing)));
    assert!(matches!(ObjLoader::step(b"g\n", &mut context, 0, 0, 0, true), Ok(ObjAction::Nothing)));
    assert_eq!(name(context.group()), Some("wing".to_string()));
}

#[test]
fn obj_keep_puts_a_face_last_or_passes_the_error_on() {
    let mut faces: Vec<u32> = vec![7, 8];
    let kept: Result<(), ObjError<String>> = ObjLoader::keep(&mut faces, Ok(9));
    assert!(kept.is_ok());
    assert_eq!(faces, [7, 8, 9]);
    let refused = ObjLoader::keep(&mut faces, Err("no".to_string()));
    assert!(matches!(refused, Err(ObjError::Builder(m)) if m == "no"));
    assert_eq!(faces, [7, 8, 9]);
}
