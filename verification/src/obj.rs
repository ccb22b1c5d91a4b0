//! The OBJ mesh format: what each line of a file states, which corners a
//! face names, and the reader that hands both to a builder.
//!
//! The builder decides what a vertex, a normal, a texture position and a
//! face are, which groups are wanted, and whether a face is refused. So a
//! reading is stated as a relation over the answers that the builder may
//! give (`may_read`): line by line, `step` says what is asked of the
//! builder, and what the builder answers is kept as `may_go_on` says.

use crate::number::{float_literal, is_float_literal};
use crate::text::{
    ascii, copy_range, line_end, next_line, parse_usize, parse_usize_spec, spells, split,
    split_on, split_words, views, words,
};
use vstd::prelude::*;

verus! {

/// Which kind of line could not be read.
#[derive(Debug, Copy, Clone, PartialEq, Eq, Structural)]
pub enum Malformation {
    Vertex,
    Normal,
    TextureCoordinate,
}

/// What one line of a file states.
#[derive(Debug, Clone)]
pub enum Statement {
    /// `v`: the three coordinates of a vertex, each a floating-point text.
    Vertex(Vec<u8>, Vec<u8>, Vec<u8>),
    /// `vn`: the three coordinates of a normal, each a floating-point text.
    Normal(Vec<u8>, Vec<u8>, Vec<u8>),
    /// `vt`: the two coordinates of a texture position, each a
    /// floating-point text.
    TextureCoordinate(Vec<u8>, Vec<u8>),
    /// `f`: the words that follow it, one for each corner.
    Face(Vec<Vec<u8>>),
    /// `o` or `g` with a name: the group that starts.
    Group(Vec<u8>),
    /// `usemtl` with a name: the material of the faces that follow.
    UseMaterial(Vec<u8>),
    /// `mtllib`: the name of a material library, its words joined by single
    /// spaces.
    MaterialLibrary(Vec<u8>),
    /// A `v`, `vn` or `vt` line that lacks a coordinate or holds a word
    /// that is no floating-point text.
    Malformed(Malformation),
    /// Any other line.
    Other,
}

/// The mathematical content of a `Statement`.
pub enum StatementModel {
    Vertex(Seq<u8>, Seq<u8>, Seq<u8>),
    Normal(Seq<u8>, Seq<u8>, Seq<u8>),
    TextureCoordinate(Seq<u8>, Seq<u8>),
    Face(Seq<Seq<u8>>),
    Group(Seq<u8>),
    UseMaterial(Seq<u8>),
    MaterialLibrary(Seq<u8>),
    Malformed(Malformation),
    Other,
}

impl View for Statement {
    type V = StatementModel;

    open spec fn view(&self) -> StatementModel {
        match *self {
            Statement::Vertex(x, y, z) => StatementModel::Vertex(x@, y@, z@),
            Statement::Normal(x, y, z) => StatementModel::Normal(x@, y@, z@),
            Statement::TextureCoordinate(u, v) => StatementModel::TextureCoordinate(u@, v@),
            Statement::Face(corners) => StatementModel::Face(views(corners@)),
            Statement::Group(name) => StatementModel::Group(name@),
            Statement::UseMaterial(name) => StatementModel::UseMaterial(name@),
            Statement::MaterialLibrary(name) => StatementModel::MaterialLibrary(name@),
            Statement::Malformed(kind) => StatementModel::Malformed(kind),
            Statement::Other => StatementModel::Other,
        }
    }
}

/// The words of `w`, with a single space between neighbours.
pub open spec fn joined(w: Seq<Seq<u8>>) -> Seq<u8>
    decreases w.len(),
{
    if w.len() == 0 {
        Seq::empty()
    } else if w.len() == 1 {
        w[0]
    } else {
        joined(w.drop_last()) + seq![0x20u8] + w.last()
    }
}

/// Whether the words at `from` up to `to` are all floating-point texts.
pub open spec fn all_literals(w: Seq<Seq<u8>>, from: int, to: int) -> bool {
    to <= w.len() && forall|i: int| from <= i < to ==> is_float_literal(#[trigger] w[i])
}

/// What a line states. The line is cut into words at white space, and its
/// first word decides.
pub open spec fn statement_of(line: Seq<u8>) -> StatementModel {
    let w = words(line);
    if w.len() == 0 {
        StatementModel::Other
    } else if w[0] == ascii("v") {
        if all_literals(w, 1, 4) {
            StatementModel::Vertex(w[1], w[2], w[3])
        } else {
            StatementModel::Malformed(Malformation::Vertex)
        }
    } else if w[0] == ascii("vn") {
        if all_literals(w, 1, 4) {
            StatementModel::Normal(w[1], w[2], w[3])
        } else {
            StatementModel::Malformed(Malformation::Normal)
        }
    } else if w[0] == ascii("vt") {
        if all_literals(w, 1, 3) {
            StatementModel::TextureCoordinate(w[1], w[2])
        } else {
            StatementModel::Malformed(Malformation::TextureCoordinate)
        }
    } else if w[0] == ascii("f") {
        StatementModel::Face(w.subrange(1, w.len() as int))
    } else if w[0] == ascii("o") || w[0] == ascii("g") {
        if w.len() >= 2 {
            StatementModel::Group(w[1])
        } else {
            StatementModel::Other
        }
    } else if w[0] == ascii("usemtl") {
        if w.len() >= 2 {
            StatementModel::UseMaterial(w[1])
        } else {
            StatementModel::Other
        }
    } else if w[0] == ascii("mtllib") {
        StatementModel::MaterialLibrary(joined(w.subrange(1, w.len() as int)))
    } else {
        StatementModel::Other
    }
}

/// A copy of the whole of `bytes`.
fn copy_all(bytes: &[u8]) -> (out: Vec<u8>)
    ensures
        out@ == bytes@,
{
    let out = copy_range(bytes, 0, bytes.len());
    out
}

/// The words from the one at `from` on, with a single space between
/// neighbours.
fn join_from(w: &Vec<Vec<u8>>, from: usize) -> (out: Vec<u8>)
    requires
        from <= w@.len(),
    ensures
        out@ == joined(views(w@).subrange(from as int, w@.len() as int)),
{
    let n = w.len();
    let ghost all = views(w@);
    let mut out: Vec<u8> = Vec::new();
    let mut i: usize = from;
    while i < n
        invariant
            from <= i <= n == w@.len(),
            all == views(w@),
            out@ == joined(all.subrange(from as int, i as int)),
        decreases n - i,
    {
        let ghost before = all.subrange(from as int, i as int);
        let ghost after = all.subrange(from as int, i + 1);
        assert(after.drop_last() =~= before);
        if i > from {
            out.push(0x20);
        }
        let word = &w[i];
        let mut j: usize = 0;
        let ghost head = out@;
        while j < word.len()
            invariant
                j <= word@.len(),
                out@ == head + word@.subrange(0, j as int),
            decreases word@.len() - j,
        {
            out.push(word[j]);
            j += 1;
        }
        assert(out@ =~= joined(after));
        i += 1;
    }
    out
}

/// Whether the words at `from` up to `to` are all floating-point texts.
fn literals(w: &Vec<Vec<u8>>, from: usize, to: usize) -> (r: bool)
    requires
        from <= to,
    ensures
        r == all_literals(views(w@), from as int, to as int),
{
    if to > w.len() {
        return false;
    }
    let mut i: usize = from;
    while i < to
        invariant
            from <= i <= to <= w@.len(),
            forall|k: int| from <= k < i ==> is_float_literal(#[trigger] views(w@)[k]),
        decreases to - i,
    {
        if !float_literal(w[i].as_slice()) {
            assert(!is_float_literal(views(w@)[i as int]));
            return false;
        }
        i += 1;
    }
    true
}

/// The reader of OBJ files.
pub struct ObjLoader;

impl ObjLoader {
    /// What `line` states.
    pub fn statement(line: &[u8]) -> (r: Statement)
        ensures
            r@ == statement_of(line@),
    {
        let w = split_words(line);
        let n = w.len();
        if n == 0 {
            return Statement::Other;
        }
        proof {
            reveal_strlit("v");
            reveal_strlit("vn");
            reveal_strlit("vt");
            reveal_strlit("f");
            reveal_strlit("o");
            reveal_strlit("g");
            reveal_strlit("usemtl");
            reveal_strlit("mtllib");
        }
        let ghost all = words(line@);
        let head = w[0].as_slice();
        if spells(head, "v") {
            if literals(&w, 1, 4) {
                Statement::Vertex(
                    copy_all(w[1].as_slice()),
                    copy_all(w[2].as_slice()),
                    copy_all(w[3].as_slice()),
                )
            } else {
                Statement::Malformed(Malformation::Vertex)
            }
        } else if spells(head, "vn") {
            if literals(&w, 1, 4) {
                Statement::Normal(
                    copy_all(w[1].as_slice()),
                    copy_all(w[2].as_slice()),
                    copy_all(w[3].as_slice()),
                )
            } else {
                Statement::Malformed(Malformation::Normal)
            }
        } else if spells(head, "vt") {
            if literals(&w, 1, 3) {
                Statement::TextureCoordinate(copy_all(w[1].as_slice()), copy_all(w[2].as_slice()))
            } else {
                Statement::Malformed(Malformation::TextureCoordinate)
            }
        } else if spells(head, "f") {
            let mut corners = w;
            corners.remove(0);
            assert(views(corners@) =~= all.subrange(1, all.len() as int));
            Statement::Face(corners)
        } else if spells(head, "o") || spells(head, "g") {
            if n >= 2 {
                Statement::Group(copy_all(w[1].as_slice()))
            } else {
                Statement::Other
            }
        } else if spells(head, "usemtl") {
            if n >= 2 {
                Statement::UseMaterial(copy_all(w[1].as_slice()))
            } else {
                Statement::Other
            }
        } else if spells(head, "mtllib") {
            Statement::MaterialLibrary(join_from(&w, 1))
        } else {
            Statement::Other
        }
    }
}

/// A corner of a face: the places of its vertex, its texture position and
/// its normal among those built so far, each counted from 0.
#[derive(Debug, Copy, Clone, PartialEq, Eq, Structural)]
pub struct Corner {
    pub vertex: usize,
    pub texture: usize,
    pub normal: usize,
}

/// The numbers that the pieces from the one at `i` on spell, in order;
/// pieces that spell no unsigned number are left out.
pub open spec fn numbers_from(pieces: Seq<Seq<u8>>, i: int) -> Seq<usize>
    decreases pieces.len() - i,
{
    if i < 0 || i >= pieces.len() {
        Seq::empty()
    } else {
        match parse_usize_spec(pieces[i]) {
            Some(n) => seq![n] + numbers_from(pieces, i + 1),
            None => numbers_from(pieces, i + 1),
        }
    }
}

/// The numbers of a corner word: those that its pieces between slashes
/// spell.
pub open spec fn numbers_of(word: Seq<u8>) -> Seq<usize> {
    numbers_from(split(word, 0x2f), 0)
}

/// Whether `word` holds two slashes side by side.
pub open spec fn has_double_slash(word: Seq<u8>) -> bool {
    exists|i: int| 0 <= i && i + 1 < word.len() && #[trigger] word[i] == 0x2f && word[i + 1] == 0x2f
}

/// The corner that a word names, given how many vertices, texture positions
/// and normals there are. Numbers in the file count from 1. A word with a
/// double slash gives vertex and normal and takes the first texture
/// position; any other word gives vertex, texture position and normal.
pub open spec fn corner_of(word: Seq<u8>, vertices: usize, textures: usize, normals: usize)
    -> Option<Corner> {
    let n = numbers_of(word);
    if has_double_slash(word) {
        if n.len() >= 2 && 1 <= n[0] <= vertices && 1 <= textures && 1 <= n[1] <= normals {
            Some(Corner { vertex: (n[0] - 1) as usize, texture: 0, normal: (n[1] - 1) as usize })
        } else {
            None
        }
    } else {
        if n.len() >= 3 && 1 <= n[0] <= vertices && 1 <= n[1] <= textures && 1 <= n[2]
            <= normals {
            Some(
                Corner {
                    vertex: (n[0] - 1) as usize,
                    texture: (n[1] - 1) as usize,
                    normal: (n[2] - 1) as usize,
                },
            )
        } else {
            None
        }
    }
}

/// The three corners of a face, where its first three words name corners.
pub open spec fn face_of(
    corners: Seq<Seq<u8>>,
    vertices: usize,
    textures: usize,
    normals: usize,
) -> Option<(Corner, Corner, Corner)> {
    if corners.len() >= 3 && corner_of(corners[0], vertices, textures, normals) is Some
        && corner_of(corners[1], vertices, textures, normals) is Some && corner_of(
        corners[2],
        vertices,
        textures,
        normals,
    ) is Some {
        Some(
            (
                corner_of(corners[0], vertices, textures, normals)->Some_0,
                corner_of(corners[1], vertices, textures, normals)->Some_0,
                corner_of(corners[2], vertices, textures, normals)->Some_0,
            ),
        )
    } else {
        None
    }
}

/// Whether `word` holds two slashes side by side.
fn double_slash(word: &[u8]) -> (r: bool)
    ensures
        r == has_double_slash(word@),
{
    let n = word.len();
    let mut i: usize = 0;
    if n < 2 {
        return false;
    }
    while i < n - 1
        invariant
            2 <= n == word@.len(),
            forall|k: int|
                0 <= k < i && k + 1 < n ==> !(#[trigger] word@[k] == 0x2f && word@[k + 1] == 0x2f),
        decreases n - i,
    {
        if word[i] == 0x2f && word[i + 1] == 0x2f {
            return true;
        }
        i += 1;
    }
    false
}

/// The numbers of a corner word.
fn numbers(word: &[u8]) -> (out: Vec<usize>)
    ensures
        out@ == numbers_of(word@),
{
    let pieces = split_on(word, 0x2f);
    let ghost all = split(word@, 0x2f);
    let n = pieces.len();
    let mut out: Vec<usize> = Vec::new();
    let mut i: usize = 0;
    while i < n
        invariant
            i <= n == pieces@.len(),
            all == views(pieces@),
            numbers_from(all, 0) == out@ + numbers_from(all, i as int),
        decreases n - i,
    {
        match parse_usize(pieces[i].as_slice()) {
            Some(v) => {
                let ghost before = out@;
                out.push(v);
                assert(out@ + numbers_from(all, i + 1) =~= before + (seq![v] + numbers_from(
                    all,
                    i + 1,
                )));
            },
            None => {},
        }
        i += 1;
    }
    out
}

impl ObjLoader {
    /// The corner that `word` names, given how many vertices, texture
    /// positions and normals have been built.
    pub fn corner(word: &[u8], vertices: usize, textures: usize, normals: usize) -> (r: Option<
        Corner,
    >)
        ensures
            r == corner_of(word@, vertices, textures, normals),
    {
        let n = numbers(word);
        if double_slash(word) {
            if n.len() >= 2 && 1 <= n[0] && n[0] <= vertices && 1 <= textures && 1 <= n[1] && n[1]
                <= normals {
                Some(Corner { vertex: n[0] - 1, texture: 0, normal: n[1] - 1 })
            } else {
                None
            }
        } else {
            if n.len() >= 3 && 1 <= n[0] && n[0] <= vertices && 1 <= n[1] && n[1] <= textures && 1
                <= n[2] && n[2] <= normals {
                Some(Corner { vertex: n[0] - 1, texture: n[1] - 1, normal: n[2] - 1 })
            } else {
                None
            }
        }
    }

    /// The three corners of a face, given the words that follow `f`.
    pub fn face(corners: &Vec<Vec<u8>>, vertices: usize, textures: usize, normals: usize) -> (r:
        Option<(Corner, Corner, Corner)>)
        ensures
            r == face_of(views(corners@), vertices, textures, normals),
            r is Some ==> {
                let (a, b, c) = r->Some_0;
                &&& a.vertex < vertices && a.texture < textures && a.normal < normals
                &&& b.vertex < vertices && b.texture < textures && b.normal < normals
                &&& c.vertex < vertices && c.texture < textures && c.normal < normals
            },
    {
        if corners.len() < 3 {
            return None;
        }
        let a = ObjLoader::corner(corners[0].as_slice(), vertices, textures, normals);
        let b = ObjLoader::corner(corners[1].as_slice(), vertices, textures, normals);
        let c = ObjLoader::corner(corners[2].as_slice(), vertices, textures, normals);
        match (a, b, c) {
            (Some(a), Some(b), Some(c)) => Some((a, b, c)),
            _ => None,
        }
    }
}


/// Where the reader stands: the group, the material and the material
/// library that the lines read so far have named last.
pub struct ObjContext {
    group_name: Option<Vec<u8>>,
    material_name: Option<Vec<u8>>,
    material_library: Option<Vec<u8>>,
}

/// The mathematical content of an `ObjContext`.
pub struct ContextModel {
    pub group: Option<Seq<u8>>,
    pub material: Option<Seq<u8>>,
    pub material_library: Option<Seq<u8>>,
}

/// The content of a name that may be missing.
pub open spec fn name_view(name: Option<Vec<u8>>) -> Option<Seq<u8>> {
    match name {
        Some(n) => Some(n@),
        None => None,
    }
}

/// The content of a borrowed name that may be missing.
pub open spec fn borrowed_name_view(name: Option<&Vec<u8>>) -> Option<Seq<u8>> {
    match name {
        Some(n) => Some(n@),
        None => None,
    }
}

impl View for ObjContext {
    type V = ContextModel;

    closed spec fn view(&self) -> ContextModel {
        ContextModel {
            group: name_view(self.group_name),
            material: name_view(self.material_name),
            material_library: name_view(self.material_library),
        }
    }
}

impl ContextModel {
    /// The context before the first line.
    pub open spec fn empty() -> ContextModel {
        ContextModel { group: None, material: None, material_library: None }
    }

    /// The context after a line that states `statement`.
    pub open spec fn after(self, statement: StatementModel) -> ContextModel {
        match statement {
            StatementModel::Group(name) => ContextModel {
                group: Some(name),
                material: self.material,
                material_library: self.material_library,
            },
            StatementModel::UseMaterial(name) => ContextModel {
                group: self.group,
                material: Some(name),
                material_library: self.material_library,
            },
            StatementModel::MaterialLibrary(name) => ContextModel {
                group: self.group,
                material: self.material,
                material_library: Some(name),
            },
            _ => self,
        }
    }
}

impl ObjContext {
    /// The context before the first line: nothing is named.
    pub fn new() -> (c: ObjContext)
        ensures
            c@ == ContextModel::empty(),
    {
        ObjContext { group_name: None, material_name: None, material_library: None }
    }

    /// The name of the group that is being read, if one has started.
    pub fn group(&self) -> (r: Option<&Vec<u8>>)
        ensures
            borrowed_name_view(r) == self@.group,
    {
        self.group_name.as_ref()
    }

    /// The name of the material in use, if one has been named.
    pub fn material(&self) -> (r: Option<&Vec<u8>>)
        ensures
            borrowed_name_view(r) == self@.material,
    {
        self.material_name.as_ref()
    }

    /// The name of the material library named last, as the file spells it.
    pub fn material_library(&self) -> (r: Option<&Vec<u8>>)
        ensures
            borrowed_name_view(r) == self@.material_library,
    {
        self.material_library.as_ref()
    }

    /// Starts a group.
    pub fn enter_group(&mut self, name: Vec<u8>)
        ensures
            final(self)@ == old(self)@.after(StatementModel::Group(name@)),
    {
        self.group_name = Some(name);
    }

    /// Names the material of the faces that follow.
    pub fn use_material(&mut self, name: Vec<u8>)
        ensures
            final(self)@ == old(self)@.after(StatementModel::UseMaterial(name@)),
    {
        self.material_name = Some(name);
    }

    /// Names a material library.
    pub fn use_library(&mut self, name: Vec<u8>)
        ensures
            final(self)@ == old(self)@.after(StatementModel::MaterialLibrary(name@)),
    {
        self.material_library = Some(name);
    }
}

impl Default for ObjContext {
    fn default() -> (c: ObjContext)
        ensures
            c@ == ContextModel::empty(),
    {
        ObjContext::new()
    }
}

/// Decides by its name whether the faces of a group are wanted.
pub trait ObjGroupFilter {
    /// Whether the faces of the group with this name are wanted; faces
    /// outside any group come without a name.
    fn include_group(&self, group_name: Option<&Vec<u8>>) -> bool;
}

/// The filter that wants every group.
impl ObjGroupFilter for () {
    fn include_group(&self, group_name: Option<&Vec<u8>>) -> (r: bool)
        ensures
            r,
    {
        true
    }
}

/// Makes vertices, normals, texture positions and faces out of what the
/// reader finds. Coordinates are handed over as texts, each of which spells
/// a floating-point number.
pub trait ObjBuilder {
    type Vertex: Copy;

    type Normal: Copy;

    type Texture: Copy;

    type Face;

    type Error;

    /// Whether the faces of the group that `context` names are wanted.
    /// Asked once before the first line and once for each group.
    fn include_group(&mut self, context: &ObjContext) -> bool;

    /// Told that `context` names a new material library.
    fn load_materials(&mut self, context: &ObjContext);

    fn build_vertex(&mut self, context: &ObjContext, x: &[u8], y: &[u8], z: &[u8]) -> Self::Vertex
        requires
            is_float_literal(x@),
            is_float_literal(y@),
            is_float_literal(z@),
    ;

    fn build_normal(&mut self, context: &ObjContext, x: &[u8], y: &[u8], z: &[u8]) -> Self::Normal
        requires
            is_float_literal(x@),
            is_float_literal(y@),
            is_float_literal(z@),
    ;

    fn build_uv(&mut self, context: &ObjContext, x: &[u8], y: &[u8]) -> Self::Texture
        requires
            is_float_literal(x@),
            is_float_literal(y@),
    ;

    fn build_face(
        &mut self,
        context: &ObjContext,
        face_a: (Self::Vertex, Self::Normal, Self::Texture),
        face_b: (Self::Vertex, Self::Normal, Self::Texture),
        face_c: (Self::Vertex, Self::Normal, Self::Texture),
    ) -> Result<Self::Face, Self::Error>;
}

/// Why a file was not read. The first four hold the line in question.
#[derive(Debug)]
pub enum ObjError<E> {
    /// A `v` line is malformed.
    Vertex(Vec<u8>),
    /// A `vn` line is malformed.
    Normal(Vec<u8>),
    /// A `vt` line is malformed.
    TextureCoordinate(Vec<u8>),
    /// An `f` line of a wanted group names no three corners among what
    /// has been built.
    Face(Vec<u8>),
    /// The builder refused a face.
    Builder(E),
}

/// The lines of `bytes` from the one that starts at `pos` on, each with its
/// line feed.
pub open spec fn lines_from(bytes: Seq<u8>, pos: int) -> Seq<Seq<u8>>
    decreases bytes.len() - pos,
{
    if pos < 0 || pos >= bytes.len() || line_end(bytes, pos) <= pos {
        Seq::empty()
    } else {
        seq![bytes.subrange(pos, line_end(bytes, pos))] + lines_from(bytes, line_end(bytes, pos))
    }
}

/// The lines of `bytes`, each with its line feed.
pub open spec fn lines(bytes: Seq<u8>) -> Seq<Seq<u8>> {
    lines_from(bytes, 0)
}

/// There are no more lines than bytes.
pub proof fn lemma_lines_are_few(bytes: Seq<u8>, pos: int)
    requires
        0 <= pos <= bytes.len(),
    ensures
        lines_from(bytes, pos).len() <= bytes.len() - pos,
    decreases bytes.len() - pos,
{
    if pos < bytes.len() && line_end(bytes, pos) > pos {
        crate::text::lemma_find_byte_bounds(bytes, pos, 0x0a);
        lemma_lines_are_few(bytes, line_end(bytes, pos));
    }
}

/// No `v`, `vn` or `vt` line among `lines` is malformed.
pub open spec fn well_stated(lines: Seq<Seq<u8>>) -> bool {
    forall|i: int| 0 <= i < lines.len() ==> !(statement_of(#[trigger] lines[i]) is Malformed)
}

/// How many of `lines` are `f` lines.
pub open spec fn face_count(lines: Seq<Seq<u8>>) -> nat
    decreases lines.len(),
{
    if lines.len() == 0 {
        0
    } else {
        face_count(lines.drop_last()) + if statement_of(lines.last()) is Face {
            1nat
        } else {
            0nat
        }
    }
}

/// Whether a line states a thing of the given kind, well formed.
pub open spec fn states(line: Seq<u8>, what: Malformation) -> bool {
    match what {
        Malformation::Vertex => statement_of(line) is Vertex,
        Malformation::Normal => statement_of(line) is Normal,
        Malformation::TextureCoordinate => statement_of(line) is TextureCoordinate,
    }
}

/// How many of `lines` state a thing of the given kind.
pub open spec fn count_stated(lines: Seq<Seq<u8>>, what: Malformation) -> nat
    decreases lines.len(),
{
    if lines.len() == 0 {
        0
    } else {
        count_stated(lines.drop_last(), what) + if states(lines.last(), what) {
            1nat
        } else {
            0nat
        }
    }
}

/// Whether line `i` is an `f` line that names three corners among the
/// vertices, texture positions and normals that the lines before it state.
pub open spec fn face_resolves(lines: Seq<Seq<u8>>, i: int) -> bool {
    let before = lines.subrange(0, i);
    match statement_of(lines[i]) {
        StatementModel::Face(corners) => face_of(
            corners,
            count_stated(before, Malformation::Vertex) as usize,
            count_stated(before, Malformation::TextureCoordinate) as usize,
            count_stated(before, Malformation::Normal) as usize,
        ) is Some,
        _ => false,
    }
}

/// Lines with an `f` line among them count at least one.
pub proof fn lemma_face_counted(lines: Seq<Seq<u8>>, i: int)
    requires
        0 <= i < lines.len(),
        statement_of(lines[i]) is Face,
    ensures
        face_count(lines) > 0,
    decreases lines.len(),
{
    if i < lines.len() - 1 {
        lemma_face_counted(lines.drop_last(), i);
    }
}

/// What the reader does with a line.
#[derive(Debug, Clone)]
pub enum ObjAction {
    /// Has a vertex built of three coordinates.
    Vertex(Vec<u8>, Vec<u8>, Vec<u8>),
    /// Has a normal built of three coordinates.
    Normal(Vec<u8>, Vec<u8>, Vec<u8>),
    /// Has a texture position built of two coordinates.
    Texture(Vec<u8>, Vec<u8>),
    /// Has a face built of three corners.
    Face(Corner, Corner, Corner),
    /// Asks whether the faces of the group that starts are wanted.
    AskGroup,
    /// Tells that a material library was named.
    LoadMaterials,
    /// Nothing.
    Nothing,
}

/// The mathematical content of what the reader does with a line, or of why
/// it stops there.
pub enum ActionModel {
    Vertex(Seq<u8>, Seq<u8>, Seq<u8>),
    Normal(Seq<u8>, Seq<u8>, Seq<u8>),
    Texture(Seq<u8>, Seq<u8>),
    Face(Corner, Corner, Corner),
    AskGroup,
    LoadMaterials,
    Nothing,
    /// The line is a malformed `v`, `vn` or `vt` line.
    Malformed(Malformation),
    /// The line is an `f` line of a wanted group that names no three
    /// corners.
    NoFace,
}

/// What the reader does with `line`, given how many vertices, texture
/// positions and normals have been built and whether faces are wanted. A
/// `v`, `vn` or `vt` line has its thing built, and stops the reader where
/// it is malformed. An `f` line is passed over where faces are not wanted;
/// where they are, it has a face built of its three corners, and stops the
/// reader where it names none. A group is asked about, and a material
/// library is told.
pub open spec fn action_of(
    line: Seq<u8>,
    vertices: usize,
    textures: usize,
    normals: usize,
    include_faces: bool,
) -> ActionModel {
    match statement_of(line) {
        StatementModel::Vertex(x, y, z) => ActionModel::Vertex(x, y, z),
        StatementModel::Normal(x, y, z) => ActionModel::Normal(x, y, z),
        StatementModel::TextureCoordinate(u, v) => ActionModel::Texture(u, v),
        StatementModel::Face(corners) => if include_faces {
            match face_of(corners, vertices, textures, normals) {
                Some((a, b, c)) => ActionModel::Face(a, b, c),
                None => ActionModel::NoFace,
            }
        } else {
            ActionModel::Nothing
        },
        StatementModel::Group(_) => ActionModel::AskGroup,
        StatementModel::UseMaterial(_) => ActionModel::Nothing,
        StatementModel::MaterialLibrary(_) => ActionModel::LoadMaterials,
        StatementModel::Malformed(kind) => ActionModel::Malformed(kind),
        StatementModel::Other => ActionModel::Nothing,
    }
}

/// The content of what `step` gives for `line`: the action, or why the
/// reader stops. An error of `step` always holds the line.
pub open spec fn action_view(line: Seq<u8>, r: Result<ObjAction, ObjError<()>>) -> Option<
    ActionModel,
> {
    match r {
        Ok(ObjAction::Vertex(x, y, z)) => Some(ActionModel::Vertex(x@, y@, z@)),
        Ok(ObjAction::Normal(x, y, z)) => Some(ActionModel::Normal(x@, y@, z@)),
        Ok(ObjAction::Texture(u, v)) => Some(ActionModel::Texture(u@, v@)),
        Ok(ObjAction::Face(a, b, c)) => Some(ActionModel::Face(a, b, c)),
        Ok(ObjAction::AskGroup) => Some(ActionModel::AskGroup),
        Ok(ObjAction::LoadMaterials) => Some(ActionModel::LoadMaterials),
        Ok(ObjAction::Nothing) => Some(ActionModel::Nothing),
        Err(ObjError::Vertex(l)) => if l@ == line {
            Some(ActionModel::Malformed(Malformation::Vertex))
        } else {
            None
        },
        Err(ObjError::Normal(l)) => if l@ == line {
            Some(ActionModel::Malformed(Malformation::Normal))
        } else {
            None
        },
        Err(ObjError::TextureCoordinate(l)) => if l@ == line {
            Some(ActionModel::Malformed(Malformation::TextureCoordinate))
        } else {
            None
        },
        Err(ObjError::Face(l)) => if l@ == line {
            Some(ActionModel::NoFace)
        } else {
            None
        },
        Err(ObjError::Builder(_)) => None,
    }
}

/// Whether `r` reports that the reader stopped at `line` for the reason
/// that `action` gives.
pub open spec fn stopped_at<F, E>(
    line: Seq<u8>,
    action: ActionModel,
    r: Result<Vec<F>, ObjError<E>>,
) -> bool {
    match action {
        ActionModel::Malformed(Malformation::Vertex) => r matches Err(ObjError::Vertex(l)) && l@
            == line,
        ActionModel::Malformed(Malformation::Normal) => r matches Err(ObjError::Normal(l)) && l@
            == line,
        ActionModel::Malformed(Malformation::TextureCoordinate) => r matches Err(
            ObjError::TextureCoordinate(l),
        ) && l@ == line,
        ActionModel::NoFace => r matches Err(ObjError::Face(l)) && l@ == line,
        _ => false,
    }
}

/// Whether the builder may say `wanted` when it is asked about the group
/// that `context` names.
pub open spec fn may_want<B: ObjBuilder>(context: ContextModel, wanted: bool) -> bool {
    exists|b: &mut B, c: &ObjContext|
        c@ == context && #[trigger] call_ensures(B::include_group, (b, c), wanted)
}

/// Whether the builder may build `v` of the coordinates `x`, `y` and `z`.
pub open spec fn may_build_vertex<B: ObjBuilder>(
    context: ContextModel,
    x: Seq<u8>,
    y: Seq<u8>,
    z: Seq<u8>,
    v: B::Vertex,
) -> bool {
    exists|b: &mut B, c: &ObjContext, tx: &[u8], ty: &[u8], tz: &[u8]|
        c@ == context && tx@ == x && ty@ == y && tz@ == z && #[trigger] call_ensures(
            B::build_vertex,
            (b, c, tx, ty, tz),
            v,
        )
}

/// Whether the builder may build the normal `v` of the coordinates `x`,
/// `y` and `z`.
pub open spec fn may_build_normal<B: ObjBuilder>(
    context: ContextModel,
    x: Seq<u8>,
    y: Seq<u8>,
    z: Seq<u8>,
    v: B::Normal,
) -> bool {
    exists|b: &mut B, c: &ObjContext, tx: &[u8], ty: &[u8], tz: &[u8]|
        c@ == context && tx@ == x && ty@ == y && tz@ == z && #[trigger] call_ensures(
            B::build_normal,
            (b, c, tx, ty, tz),
            v,
        )
}

/// Whether the builder may build the texture position `v` of the
/// coordinates `x` and `y`.
pub open spec fn may_build_uv<B: ObjBuilder>(
    context: ContextModel,
    x: Seq<u8>,
    y: Seq<u8>,
    v: B::Texture,
) -> bool {
    exists|b: &mut B, c: &ObjContext, tx: &[u8], ty: &[u8]|
        c@ == context && tx@ == x && ty@ == y && #[trigger] call_ensures(
            B::build_uv,
            (b, c, tx, ty),
            v,
        )
}

/// Whether the builder may answer `built` when it is handed the three
/// corners of a face.
pub open spec fn may_build_face<B: ObjBuilder>(
    context: ContextModel,
    face_a: (B::Vertex, B::Normal, B::Texture),
    face_b: (B::Vertex, B::Normal, B::Texture),
    face_c: (B::Vertex, B::Normal, B::Texture),
    built: Result<B::Face, B::Error>,
) -> bool {
    exists|b: &mut B, c: &ObjContext|
        c@ == context && #[trigger] call_ensures(
            B::build_face,
            (b, c, face_a, face_b, face_c),
            built,
        )
}

/// What the reader holds between two lines: what has been built, where it
/// stands, and whether faces are wanted.
pub ghost struct Held<V, N, T, F> {
    pub vertices: Seq<V>,
    pub normals: Seq<N>,
    pub textures: Seq<T>,
    pub faces: Seq<F>,
    pub context: ContextModel,
    pub wanted: bool,
}

/// What the builder is handed for a corner: its vertex, its normal and its
/// texture position.
pub open spec fn corner_things<V, N, T, F>(held: Held<V, N, T, F>, corner: Corner) -> (V, N, T) {
    (held.vertices[corner.vertex as int], held.normals[corner.normal as int], held.textures[
        corner.texture as int
    ])
}

/// Whether the reader, holding `held` in the context of a line, may hold
/// `next` after it has acted on the line as `action` says, the builder
/// giving one of its answers. A thing that is built is put after those of
/// its kind. A face is built of the things at its three corners, and kept
/// after the faces before it. What the builder says of a group decides
/// whether faces are wanted from there on.
pub open spec fn may_go_on<B: ObjBuilder>(
    held: Held<B::Vertex, B::Normal, B::Texture, B::Face>,
    action: ActionModel,
    next: Held<B::Vertex, B::Normal, B::Texture, B::Face>,
) -> bool {
    match action {
        ActionModel::Vertex(x, y, z) => exists|v: B::Vertex| #[trigger]
            may_build_vertex::<B>(held.context, x, y, z, v) && next == (Held {
                vertices: held.vertices.push(v),
                ..held
            }),
        ActionModel::Normal(x, y, z) => exists|v: B::Normal| #[trigger]
            may_build_normal::<B>(held.context, x, y, z, v) && next == (Held {
                normals: held.normals.push(v),
                ..held
            }),
        ActionModel::Texture(x, y) => exists|v: B::Texture| #[trigger]
            may_build_uv::<B>(held.context, x, y, v) && next == (Held {
                textures: held.textures.push(v),
                ..held
            }),
        ActionModel::Face(a, b, c) => exists|face: B::Face| #[trigger]
            may_build_face::<B>(
                held.context,
                corner_things(held, a),
                corner_things(held, b),
                corner_things(held, c),
                Ok(face),
            ) && next == (Held { faces: held.faces.push(face), ..held }),
        ActionModel::AskGroup => exists|wanted: bool| #[trigger]
            may_want::<B>(held.context, wanted) && next == (Held { wanted, ..held }),
        ActionModel::LoadMaterials => next == held,
        ActionModel::Nothing => next == held,
        ActionModel::Malformed(_) => false,
        ActionModel::NoFace => false,
    }
}

/// Whether the reader, holding `held` in the context of `line`, may stop
/// with `r` where it acts on the line as `action` says: with the error of
/// the line where the line stops it, and with the error of the builder
/// where the builder may refuse the face.
pub open spec fn may_stop<B: ObjBuilder>(
    line: Seq<u8>,
    held: Held<B::Vertex, B::Normal, B::Texture, B::Face>,
    action: ActionModel,
    r: Result<Vec<B::Face>, ObjError<B::Error>>,
) -> bool {
    match action {
        ActionModel::Face(a, b, c) => r matches Err(ObjError::Builder(e)) && may_build_face::<B>(
            held.context,
            corner_things(held, a),
            corner_things(held, b),
            corner_things(held, c),
            Err(e),
        ),
        _ => stopped_at(line, action, r),
    }
}

/// What the reader holds at a line: what it held before, in the context
/// after the line.
pub open spec fn held_at<V, N, T, F>(held: Held<V, N, T, F>, line: Seq<u8>) -> Held<V, N, T, F> {
    Held { context: held.context.after(statement_of(line)), ..held }
}

/// What the reader does with `line` where it holds `held`.
pub open spec fn action_at<V, N, T, F>(held: Held<V, N, T, F>, line: Seq<u8>) -> ActionModel {
    action_of(
        line,
        held.vertices.len() as usize,
        held.textures.len() as usize,
        held.normals.len() as usize,
        held.wanted,
    )
}

/// Whether reading the lines from the one at `i` on may end in `r`, where
/// the reader holds `held` and the builder gives one of its answers each
/// time it is asked. Each line is acted on as `action_of` says, in the
/// context after the line: the reader stops there as `may_stop` says, or
/// goes on to the next line as `may_go_on` says. So the first line that
/// stops the reader decides. After the last line the faces kept are the
/// result.
pub open spec fn may_read_from<B: ObjBuilder>(
    lines: Seq<Seq<u8>>,
    i: int,
    held: Held<B::Vertex, B::Normal, B::Texture, B::Face>,
    r: Result<Vec<B::Face>, ObjError<B::Error>>,
) -> bool
    decreases lines.len() - i,
{
    if i < 0 || i >= lines.len() {
        r matches Ok(faces) && faces@ == held.faces
    } else {
        ||| may_stop::<B>(lines[i], held_at(held, lines[i]), action_at(held, lines[i]), r)
        ||| exists|next: Held<B::Vertex, B::Normal, B::Texture, B::Face>| #[trigger]
            may_go_on::<B>(held_at(held, lines[i]), action_at(held, lines[i]), next)
                && may_read_from::<B>(lines, i + 1, next, r)
    }
}

/// What the reader holds before the first line, where the builder said
/// `wanted` of the faces outside any group.
pub open spec fn held_at_first<V, N, T, F>(wanted: bool) -> Held<V, N, T, F> {
    Held {
        vertices: Seq::empty(),
        normals: Seq::empty(),
        textures: Seq::empty(),
        faces: Seq::empty(),
        context: ContextModel::empty(),
        wanted,
    }
}

/// Whether reading `lines` may end in `r`: the builder is asked whether
/// the faces outside any group are wanted, and then the lines are read
/// from the first on.
pub open spec fn may_read<B: ObjBuilder>(
    lines: Seq<Seq<u8>>,
    r: Result<Vec<B::Face>, ObjError<B::Error>>,
) -> bool {
    exists|wanted: bool| #[trigger]
        may_want::<B>(ContextModel::empty(), wanted) && may_read_from::<B>(
            lines,
            0,
            held_at_first(wanted),
            r,
        )
}

/// No line from the one at `from` up to the one at `to` is a malformed
/// `v`, `vn` or `vt` line.
pub open spec fn clean_between(lines: Seq<Seq<u8>>, from: int, to: int) -> bool {
    forall|k: int| from <= k < to ==> !(statement_of(#[trigger] lines[k]) is Malformed)
}

/// What every reading of the lines from the one at `from` on comes to,
/// whatever the builder answers. Success means that none of the lines is
/// malformed, with at most one face for each `f` line of the file. An
/// error that holds a line holds a line of the file that is wrong in the
/// way reported, an `f` line in that it names no three corners among what
/// the lines before it state; an error of the builder comes at an `f` line
/// that names three such corners. No line between `from` and the line of
/// the error is malformed.
pub open spec fn read_rightly<F, E>(
    lines: Seq<Seq<u8>>,
    from: int,
    r: Result<Vec<F>, ObjError<E>>,
) -> bool {
    match r {
        Ok(faces) => clean_between(lines, from, lines.len() as int) && faces@.len() <= face_count(
            lines,
        ),
        Err(ObjError::Vertex(l)) => exists|j: int|
            from <= j < lines.len() && #[trigger] lines[j] == l@ && statement_of(l@)
                == StatementModel::Malformed(Malformation::Vertex) && clean_between(lines, from, j),
        Err(ObjError::Normal(l)) => exists|j: int|
            from <= j < lines.len() && #[trigger] lines[j] == l@ && statement_of(l@)
                == StatementModel::Malformed(Malformation::Normal) && clean_between(lines, from, j),
        Err(ObjError::TextureCoordinate(l)) => exists|j: int|
            from <= j < lines.len() && #[trigger] lines[j] == l@ && statement_of(l@)
                == StatementModel::Malformed(Malformation::TextureCoordinate) && clean_between(
                lines,
                from,
                j,
            ),
        Err(ObjError::Face(l)) => exists|j: int|
            from <= j < lines.len() && #[trigger] lines[j] == l@ && statement_of(l@) is Face
                && !face_resolves(lines, j) && clean_between(lines, from, j),
        Err(ObjError::Builder(_)) => exists|j: int|
            from <= j < lines.len() && statement_of(#[trigger] lines[j]) is Face && face_resolves(
                lines,
                j,
            ) && clean_between(lines, from, j),
    }
}

/// Whether the builder may refuse a face with the error `e`.
pub open spec fn may_refuse<B: ObjBuilder>(e: B::Error) -> bool {
    exists|
        context: ContextModel,
        face_a: (B::Vertex, B::Normal, B::Texture),
        face_b: (B::Vertex, B::Normal, B::Texture),
        face_c: (B::Vertex, B::Normal, B::Texture),
    | #[trigger]
        may_build_face::<B>(context, face_a, face_b, face_c, Err(e))
}

/// The lines before the one at `i + 1` count what the lines before the one
/// at `i` count, and the line at `i`.
proof fn lemma_counts_step(lines: Seq<Seq<u8>>, i: int)
    requires
        0 <= i < lines.len(),
    ensures
        forall|what: Malformation| #[trigger]
            count_stated(lines.subrange(0, i + 1), what) == count_stated(
                lines.subrange(0, i),
                what,
            ) + if states(lines[i], what) {
                1nat
            } else {
                0nat
            },
        face_count(lines.subrange(0, i + 1)) == face_count(lines.subrange(0, i)) + if statement_of(
            lines[i],
        ) is Face {
            1nat
        } else {
            0nat
        },
        count_stated(lines.subrange(0, i), Malformation::Vertex) <= i,
        count_stated(lines.subrange(0, i), Malformation::Normal) <= i,
        count_stated(lines.subrange(0, i), Malformation::TextureCoordinate) <= i,
        face_count(lines.subrange(0, i)) <= i,
    decreases i,
{
    assert(lines.subrange(0, i + 1).drop_last() =~= lines.subrange(0, i));
    if i > 0 {
        lemma_counts_step(lines, i - 1);
    }
}

/// What a reading from the line at `i` on comes to, where the reader holds
/// as many things of each kind as the lines before state.
proof fn lemma_read_from_rightly<B: ObjBuilder>(
    lines: Seq<Seq<u8>>,
    i: int,
    held: Held<B::Vertex, B::Normal, B::Texture, B::Face>,
    r: Result<Vec<B::Face>, ObjError<B::Error>>,
)
    requires
        0 <= i <= lines.len() <= usize::MAX,
        may_read_from::<B>(lines, i, held, r),
        held.vertices.len() == count_stated(lines.subrange(0, i), Malformation::Vertex),
        held.normals.len() == count_stated(lines.subrange(0, i), Malformation::Normal),
        held.textures.len() == count_stated(
            lines.subrange(0, i),
            Malformation::TextureCoordinate,
        ),
        held.faces.len() <= face_count(lines.subrange(0, i)),
    ensures
        read_rightly(lines, i, r),
        r matches Err(ObjError::Builder(e)) ==> may_refuse::<B>(e),
    decreases lines.len() - i,
{
    if i == lines.len() {
        assert(lines.subrange(0, i) =~= lines);
    } else {
        lemma_counts_step(lines, i);
        let line = lines[i];
        let here = held_at(held, line);
        let action = action_at(held, line);
        if may_stop::<B>(line, here, action, r) {
            match r {
                Err(ObjError::Vertex(l)) => {
                    assert(lines[i] == l@);
                },
                Err(ObjError::Normal(l)) => {
                    assert(lines[i] == l@);
                },
                Err(ObjError::TextureCoordinate(l)) => {
                    assert(lines[i] == l@);
                },
                Err(ObjError::Face(l)) => {
                    assert(lines[i] == l@);
                },
                Err(ObjError::Builder(e)) => {
                    assert(statement_of(lines[i]) is Face);
                    assert(may_build_face::<B>(
                        here.context,
                        corner_things(here, action->Face_0),
                        corner_things(here, action->Face_1),
                        corner_things(here, action->Face_2),
                        Err(e),
                    ));
                },
                Ok(_) => {},
            }
        } else {
            let next = choose|next: Held<B::Vertex, B::Normal, B::Texture, B::Face>| #[trigger]
                may_go_on::<B>(here, action, next) && may_read_from::<B>(lines, i + 1, next, r);
            assert(states(line, Malformation::Vertex) == (action is Vertex));
            assert(states(line, Malformation::Normal) == (action is Normal));
            assert(states(line, Malformation::TextureCoordinate) == (action is Texture));
            lemma_read_from_rightly::<B>(lines, i + 1, next, r);
            assert(!(statement_of(lines[i]) is Malformed));
            match r {
                Err(ObjError::Vertex(l)) => {
                    let j = choose|j: int|
                        i + 1 <= j < lines.len() && #[trigger] lines[j] == l@ && statement_of(l@)
                            == StatementModel::Malformed(Malformation::Vertex) && clean_between(
                            lines,
                            i + 1,
                            j,
                        );
                    assert(clean_between(lines, i, j));
                },
                Err(ObjError::Normal(l)) => {
                    let j = choose|j: int|
                        i + 1 <= j < lines.len() && #[trigger] lines[j] == l@ && statement_of(l@)
                            == StatementModel::Malformed(Malformation::Normal) && clean_between(
                            lines,
                            i + 1,
                            j,
                        );
                    assert(clean_between(lines, i, j));
                },
                Err(ObjError::TextureCoordinate(l)) => {
                    let j = choose|j: int|
                        i + 1 <= j < lines.len() && #[trigger] lines[j] == l@ && statement_of(l@)
                            == StatementModel::Malformed(Malformation::TextureCoordinate)
                            && clean_between(lines, i + 1, j);
                    assert(clean_between(lines, i, j));
                },
                Err(ObjError::Face(l)) => {
                    let j = choose|j: int|
                        i + 1 <= j < lines.len() && #[trigger] lines[j] == l@ && statement_of(
                            l@,
                        ) is Face && !face_resolves(lines, j) && clean_between(lines, i + 1, j);
                    assert(clean_between(lines, i, j));
                },
                Err(ObjError::Builder(_)) => {
                    let j = choose|j: int|
                        i + 1 <= j < lines.len() && statement_of(#[trigger] lines[j]) is Face
                            && face_resolves(lines, j) && clean_between(lines, i + 1, j);
                    assert(clean_between(lines, i, j));
                },
                Ok(_) => {
                    assert(clean_between(lines, i, lines.len() as int));
                },
            }
        }
    }
}

/// Whatever the builder answers, a reading comes to what `read_rightly`
/// says: the line of an error is the first line that is wrong, and the
/// faces are no more than the `f` lines. An error of the builder is one
/// with which the builder may refuse a face.
pub proof fn lemma_read_rightly<B: ObjBuilder>(
    lines: Seq<Seq<u8>>,
    r: Result<Vec<B::Face>, ObjError<B::Error>>,
)
    requires
        lines.len() <= usize::MAX,
        may_read::<B>(lines, r),
    ensures
        read_rightly(lines, 0, r),
        r matches Err(ObjError::Builder(e)) ==> may_refuse::<B>(e),
{
    let wanted = choose|wanted: bool| #[trigger]
        may_want::<B>(ContextModel::empty(), wanted) && may_read_from::<B>(
            lines,
            0,
            held_at_first(wanted),
            r,
        );
    assert(lines.subrange(0, 0) =~= Seq::empty());
    lemma_read_from_rightly::<B>(lines, 0, held_at_first(wanted), r);
}

/// A file without malformed lines and without `f` lines is read with
/// success, whatever the builder answers, and gives no face.
pub proof fn lemma_clean_read_succeeds<B: ObjBuilder>(
    lines: Seq<Seq<u8>>,
    r: Result<Vec<B::Face>, ObjError<B::Error>>,
)
    requires
        lines.len() <= usize::MAX,
        may_read::<B>(lines, r),
        well_stated(lines),
        face_count(lines) == 0,
    ensures
        r matches Ok(faces) && faces@.len() == 0,
{
    lemma_read_rightly::<B>(lines, r);
    match r {
        Err(ObjError::Face(l)) => {
            let j = choose|j: int|
                0 <= j < lines.len() && #[trigger] lines[j] == l@ && statement_of(l@) is Face
                    && !face_resolves(lines, j) && clean_between(lines, 0, j);
            lemma_face_counted(lines, j);
        },
        Err(ObjError::Builder(_)) => {
            let j = choose|j: int|
                0 <= j < lines.len() && statement_of(#[trigger] lines[j]) is Face && face_resolves(
                    lines,
                    j,
                ) && clean_between(lines, 0, j);
            lemma_face_counted(lines, j);
        },
        Err(ObjError::Vertex(l)) => {
            let j = choose|j: int|
                0 <= j < lines.len() && #[trigger] lines[j] == l@ && statement_of(l@)
                    == StatementModel::Malformed(Malformation::Vertex) && clean_between(lines, 0, j);
        },
        Err(ObjError::Normal(l)) => {
            let j = choose|j: int|
                0 <= j < lines.len() && #[trigger] lines[j] == l@ && statement_of(l@)
                    == StatementModel::Malformed(Malformation::Normal) && clean_between(lines, 0, j);
        },
        Err(ObjError::TextureCoordinate(l)) => {
            let j = choose|j: int|
                0 <= j < lines.len() && #[trigger] lines[j] == l@ && statement_of(l@)
                    == StatementModel::Malformed(Malformation::TextureCoordinate) && clean_between(
                    lines,
                    0,
                    j,
                );
        },
        Ok(_) => {},
    }
}

/// A file is read with success where none of its lines is malformed, every
/// `f` line names three corners among what the lines before it state, and
/// the builder never refuses a face.
pub proof fn lemma_read_succeeds<B: ObjBuilder>(
    lines: Seq<Seq<u8>>,
    r: Result<Vec<B::Face>, ObjError<B::Error>>,
)
    requires
        lines.len() <= usize::MAX,
        may_read::<B>(lines, r),
        well_stated(lines),
        forall|j: int|
            0 <= j < lines.len() && statement_of(#[trigger] lines[j]) is Face ==> face_resolves(
                lines,
                j,
            ),
        forall|e: B::Error| !may_refuse::<B>(e),
    ensures
        r is Ok,
{
    lemma_read_rightly::<B>(lines, r);
    match r {
        Err(ObjError::Face(l)) => {
            let j = choose|j: int|
                0 <= j < lines.len() && #[trigger] lines[j] == l@ && statement_of(l@) is Face
                    && !face_resolves(lines, j) && clean_between(lines, 0, j);
        },
        Err(ObjError::Vertex(l)) => {
            let j = choose|j: int|
                0 <= j < lines.len() && #[trigger] lines[j] == l@ && statement_of(l@)
                    == StatementModel::Malformed(Malformation::Vertex) && clean_between(lines, 0, j);
        },
        Err(ObjError::Normal(l)) => {
            let j = choose|j: int|
                0 <= j < lines.len() && #[trigger] lines[j] == l@ && statement_of(l@)
                    == StatementModel::Malformed(Malformation::Normal) && clean_between(lines, 0, j);
        },
        Err(ObjError::TextureCoordinate(l)) => {
            let j = choose|j: int|
                0 <= j < lines.len() && #[trigger] lines[j] == l@ && statement_of(l@)
                    == StatementModel::Malformed(Malformation::TextureCoordinate) && clean_between(
                    lines,
                    0,
                    j,
                );
        },
        _ => {},
    }
}

/// Whether the builder wants the faces of every group.
pub open spec fn always_wants<B: ObjBuilder>() -> bool {
    forall|context: ContextModel, wanted: bool| #[trigger]
        may_want::<B>(context, wanted) ==> wanted
}

/// What a reading from the line at `i` on gives where the builder wants
/// every group and as many faces are kept as the lines before hold `f`
/// lines.
proof fn lemma_read_from_builds_all<B: ObjBuilder>(
    lines: Seq<Seq<u8>>,
    i: int,
    held: Held<B::Vertex, B::Normal, B::Texture, B::Face>,
    r: Result<Vec<B::Face>, ObjError<B::Error>>,
)
    requires
        0 <= i <= lines.len(),
        may_read_from::<B>(lines, i, held, r),
        always_wants::<B>(),
        held.wanted,
        held.faces.len() == face_count(lines.subrange(0, i)),
        r is Ok,
    ensures
        r->Ok_0@.len() == face_count(lines),
    decreases lines.len() - i,
{
    if i == lines.len() {
        assert(lines.subrange(0, i) =~= lines);
    } else {
        lemma_counts_step(lines, i);
        let line = lines[i];
        let here = held_at(held, line);
        let action = action_at(held, line);
        assert(!may_stop::<B>(line, here, action, r));
        let next = choose|next: Held<B::Vertex, B::Normal, B::Texture, B::Face>| #[trigger]
            may_go_on::<B>(here, action, next) && may_read_from::<B>(lines, i + 1, next, r);
        assert((statement_of(line) is Face) == (action is Face));
        lemma_read_from_builds_all::<B>(lines, i + 1, next, r);
    }
}

/// Where the builder wants every group, a reading that succeeds gives one
/// face for each `f` line of the file.
pub proof fn lemma_every_face_is_built<B: ObjBuilder>(
    lines: Seq<Seq<u8>>,
    r: Result<Vec<B::Face>, ObjError<B::Error>>,
)
    requires
        may_read::<B>(lines, r),
        always_wants::<B>(),
        r is Ok,
    ensures
        r->Ok_0@.len() == face_count(lines),
{
    let wanted = choose|wanted: bool| #[trigger]
        may_want::<B>(ContextModel::empty(), wanted) && may_read_from::<B>(
            lines,
            0,
            held_at_first(wanted),
            r,
        );
    assert(lines.subrange(0, 0) =~= Seq::empty());
    lemma_read_from_builds_all::<B>(lines, 0, held_at_first(wanted), r);
}

impl ObjLoader {
    /// What the reader does with `line`, and where it stands after it.
    pub fn step(
        line: &[u8],
        context: &mut ObjContext,
        vertices: usize,
        textures: usize,
        normals: usize,
        include_faces: bool,
    ) -> (r: Result<ObjAction, ObjError<()>>)
        ensures
            action_view(line@, r) == Some(
                action_of(line@, vertices, textures, normals, include_faces),
            ),
            final(context)@ == old(context)@.after(statement_of(line@)),
            r matches Ok(ObjAction::Face(a, b, c)) ==> {
                &&& a.vertex < vertices && a.texture < textures && a.normal < normals
                &&& b.vertex < vertices && b.texture < textures && b.normal < normals
                &&& c.vertex < vertices && c.texture < textures && c.normal < normals
            },
    {
        match ObjLoader::statement(line) {
            Statement::Vertex(x, y, z) => Ok(ObjAction::Vertex(x, y, z)),
            Statement::Normal(x, y, z) => Ok(ObjAction::Normal(x, y, z)),
            Statement::TextureCoordinate(u, v) => Ok(ObjAction::Texture(u, v)),
            Statement::Face(corners) => {
                if include_faces {
                    match ObjLoader::face(&corners, vertices, textures, normals) {
                        Some((a, b, c)) => Ok(ObjAction::Face(a, b, c)),
                        None => Err(ObjError::Face(copy_all(line))),
                    }
                } else {
                    Ok(ObjAction::Nothing)
                }
            },
            Statement::Group(name) => {
                context.enter_group(name);
                Ok(ObjAction::AskGroup)
            },
            Statement::UseMaterial(name) => {
                context.use_material(name);
                Ok(ObjAction::Nothing)
            },
            Statement::MaterialLibrary(name) => {
                context.use_library(name);
                Ok(ObjAction::LoadMaterials)
            },
            Statement::Malformed(kind) => Err(
                match kind {
                    Malformation::Vertex => ObjError::Vertex(copy_all(line)),
                    Malformation::Normal => ObjError::Normal(copy_all(line)),
                    Malformation::TextureCoordinate => ObjError::TextureCoordinate(copy_all(line)),
                },
            ),
            Statement::Other => Ok(ObjAction::Nothing),
        }
    }

    /// Keeps a face that the builder built, after those kept before; where
    /// the builder refused, nothing is kept and its error is passed on.
    pub fn keep<F, E>(faces: &mut Vec<F>, built: Result<F, E>) -> (r: Result<(), ObjError<E>>)
        ensures
            match built {
                Ok(face) => r is Ok && final(faces)@ == old(faces)@.push(face),
                Err(e) => r matches Err(ObjError::Builder(x)) && x == e && final(faces)@ == old(
                    faces,
                )@,
            },
    {
        match built {
            Ok(face) => {
                faces.push(face);
                Ok(())
            },
            Err(e) => Err(ObjError::Builder(e)),
        }
    }

    /// The error of a line as the error of a reading.
    fn stop<F, E>(line: &[u8], error: ObjError<()>) -> (r: Result<Vec<F>, ObjError<E>>)
        requires
            action_view(line@, Err::<ObjAction, ObjError<()>>(error)) is Some,
        ensures
            stopped_at(
                line@,
                action_view(line@, Err::<ObjAction, ObjError<()>>(error))->Some_0,
                r,
            ),
    {
        match error {
            ObjError::Vertex(l) => Err(ObjError::Vertex(l)),
            ObjError::Normal(l) => Err(ObjError::Normal(l)),
            ObjError::TextureCoordinate(l) => Err(ObjError::TextureCoordinate(l)),
            ObjError::Face(l) => Err(ObjError::Face(l)),
            ObjError::Builder(_) => Err(ObjError::Face(copy_all(line))),
        }
    }

    /// Reads a file line by line and hands what it states to `builder`:
    /// every vertex, normal and texture position, and every face of the
    /// groups that the builder wants, each with the context of its line.
    ///
    /// What the builder answers decides the faces: the result is one that
    /// `may_read` allows, made of the answers that the builder gave to
    /// what `step` had it asked, line by line. So the first line that
    /// stops the reader decides, every face is built of the things at the
    /// corners that its line names, and the faces come in the order of
    /// their lines.
    pub fn load<B: ObjBuilder>(bytes: &[u8], builder: &mut B) -> (r: Result<
        Vec<B::Face>,
        ObjError<B::Error>,
    >)
        ensures
            may_read::<B>(lines(bytes@), r),
            lines(bytes@).len() <= bytes@.len(),
    {
        proof {
            lemma_lines_are_few(bytes@, 0);
        }
        let n = bytes.len();
        let mut vertexes: Vec<B::Vertex> = Vec::new();
        let mut normals: Vec<B::Normal> = Vec::new();
        let mut uvs: Vec<B::Texture> = Vec::new();
        let mut faces: Vec<B::Face> = Vec::new();
        let mut context = ObjContext::new();
        let mut include_faces = builder.include_group(&context);
        let ghost all = lines(bytes@);
        let ghost first = held_at_first::<B::Vertex, B::Normal, B::Texture, B::Face>(include_faces);
        assert(may_want::<B>(ContextModel::empty(), include_faces));
        let ghost mut done: int = 0;
        let mut pos: usize = 0;
        while pos < n
            invariant
                pos <= n == bytes@.len(),
                all == lines(bytes@),
                all.len() <= bytes@.len(),
                0 <= done <= all.len(),
                all.subrange(done, all.len() as int) == lines_from(bytes@, pos as int),
                first == held_at_first::<B::Vertex, B::Normal, B::Texture, B::Face>(first.wanted),
                may_want::<B>(ContextModel::empty(), first.wanted),
                forall|end: Result<Vec<B::Face>, ObjError<B::Error>>| #[trigger]
                    may_read_from::<B>(
                        all,
                        done,
                        Held {
                            vertices: vertexes@,
                            normals: normals@,
                            textures: uvs@,
                            faces: faces@,
                            context: context@,
                            wanted: include_faces,
                        },
                        end,
                    ) ==> may_read_from::<B>(all, 0, first, end),
            decreases n - pos,
        {
            let end = next_line(bytes, pos);
            let line = vstd::slice::slice_subrange(bytes, pos, end);
            let ghost before = Held {
                vertices: vertexes@,
                normals: normals@,
                textures: uvs@,
                faces: faces@,
                context: context@,
                wanted: include_faces,
            };
            proof {
                let rest = lines_from(bytes@, pos as int);
                assert(rest =~= seq![line@] + lines_from(bytes@, end as int));
                assert(all.subrange(done, all.len() as int).len() == rest.len());
                assert(done < all.len());
                assert(all.subrange(done, all.len() as int)[0] == line@);
                assert(all[done] == line@);
                assert(all.subrange(done + 1, all.len() as int) =~= all.subrange(
                    done,
                    all.len() as int,
                ).subrange(1, all.len() - done));
                assert(lines_from(bytes@, pos as int).subrange(1, all.len() - done) =~= lines_from(
                    bytes@,
                    end as int,
                ));
            }
            let action = ObjLoader::step(
                line,
                &mut context,
                vertexes.len(),
                uvs.len(),
                normals.len(),
                include_faces,
            );
            let ghost here = held_at(before, line@);
            let ghost taken = action_at(before, line@);
            match action {
                Ok(ObjAction::Vertex(x, y, z)) => {
                    let v = builder.build_vertex(&context, x.as_slice(), y.as_slice(), z.as_slice());
                    assert(may_build_vertex::<B>(
                        here.context,
                        taken->Vertex_0,
                        taken->Vertex_1,
                        taken->Vertex_2,
                        v,
                    ));
                    vertexes.push(v);
                },
                Ok(ObjAction::Normal(x, y, z)) => {
                    let v = builder.build_normal(&context, x.as_slice(), y.as_slice(), z.as_slice());
                    assert(may_build_normal::<B>(
                        here.context,
                        taken->Normal_0,
                        taken->Normal_1,
                        taken->Normal_2,
                        v,
                    ));
                    normals.push(v);
                },
                Ok(ObjAction::Texture(x, y)) => {
                    let v = builder.build_uv(&context, x.as_slice(), y.as_slice());
                    assert(may_build_uv::<B>(
                        here.context,
                        taken->Texture_0,
                        taken->Texture_1,
                        v,
                    ));
                    uvs.push(v);
                },
                Ok(ObjAction::Face(a, b, c)) => {
                    let face_a = (vertexes[a.vertex], normals[a.normal], uvs[a.texture]);
                    let face_b = (vertexes[b.vertex], normals[b.normal], uvs[b.texture]);
                    let face_c = (vertexes[c.vertex], normals[c.normal], uvs[c.texture]);
                    let built = builder.build_face(&context, face_a, face_b, face_c);
                    assert(face_a == corner_things(here, a));
                    assert(face_b == corner_things(here, b));
                    assert(face_c == corner_things(here, c));
                    assert(may_build_face::<B>(
                        here.context,
                        corner_things(here, taken->Face_0),
                        corner_things(here, taken->Face_1),
                        corner_things(here, taken->Face_2),
                        built,
                    ));
                    match ObjLoader::keep(&mut faces, built) {
                        Ok(()) => {},
                        Err(e) => {
                            let r = Err(e);
                            assert(may_stop::<B>(line@, here, taken, r));
                            assert(may_read_from::<B>(all, done, before, r));
                            return r;
                        },
                    }
                },
                Ok(ObjAction::AskGroup) => {
                    include_faces = builder.include_group(&context);
                    assert(may_want::<B>(context@, include_faces));
                },
                Ok(ObjAction::LoadMaterials) => {
                    builder.load_materials(&context);
                },
                Ok(ObjAction::Nothing) => {},
                Err(e) => {
                    let r = ObjLoader::stop(line, e);
                    assert(may_stop::<B>(line@, here, taken, r));
                    assert(may_read_from::<B>(all, done, before, r));
                    return r;
                },
            }
            proof {
                let now = Held {
                    vertices: vertexes@,
                    normals: normals@,
                    textures: uvs@,
                    faces: faces@,
                    context: context@,
                    wanted: include_faces,
                };
                assert(may_go_on::<B>(here, taken, now));
                assert forall|end: Result<Vec<B::Face>, ObjError<B::Error>>| #[trigger]
                    may_read_from::<B>(all, done + 1, now, end) implies may_read_from::<B>(
                    all,
                    0,
                    first,
                    end,
                ) by {
                    assert(may_read_from::<B>(all, done, before, end));
                }
                done = done + 1;
            }
            pos = end;
        }
        let r = Ok(faces);
        proof {
            assert(all.subrange(done, all.len() as int).len() == 0);
            assert(may_read_from::<B>(
                all,
                done,
                Held {
                    vertices: vertexes@,
                    normals: normals@,
                    textures: uvs@,
                    faces: faces@,
                    context: context@,
                    wanted: include_faces,
                },
                r,
            ));
        }
        r
    }
}

} // verus!
