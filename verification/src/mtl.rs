//! Material libraries: what their lines state, the entries they hold, and
//! the choice of a material for a face.

use crate::number::is_float_literal;
use crate::obj::{
    all_literals, borrowed_name_view, lines, lines_from, name_view, ContextModel, ObjContext,
    ObjGroupFilter,
};
use crate::text::{ascii, copy_range, next_line, same_bytes, spells, split_words, views, words, line_end};
use crate::texture::WrapMode;
use vstd::prelude::*;

verus! {

/// What one line of a material library states.
#[derive(Debug, Clone)]
pub enum MaterialStatement {
    /// `newmtl` with a name: the material that the next lines describe.
    NewMaterial(Vec<u8>),
    /// `Kd` with three floating-point texts: a diffuse colour.
    Diffuse(Vec<u8>, Vec<u8>, Vec<u8>),
    /// `map_Kd` with a file name: a diffuse texture.
    DiffuseMap(Vec<u8>),
    /// Any other line.
    Other,
}

/// The mathematical content of a `MaterialStatement`.
pub enum MaterialStatementModel {
    NewMaterial(Seq<u8>),
    Diffuse(Seq<u8>, Seq<u8>, Seq<u8>),
    DiffuseMap(Seq<u8>),
    Other,
}

impl View for MaterialStatement {
    type V = MaterialStatementModel;

    open spec fn view(&self) -> MaterialStatementModel {
        match *self {
            MaterialStatement::NewMaterial(name) => MaterialStatementModel::NewMaterial(name@),
            MaterialStatement::Diffuse(r, g, b) => MaterialStatementModel::Diffuse(r@, g@, b@),
            MaterialStatement::DiffuseMap(file) => MaterialStatementModel::DiffuseMap(file@),
            MaterialStatement::Other => MaterialStatementModel::Other,
        }
    }
}

/// What a line states. The line is cut into words at white space, and its
/// first word decides; a line that lacks what its first word asks for
/// states nothing.
pub open spec fn material_statement_of(line: Seq<u8>) -> MaterialStatementModel {
    let w = words(line);
    if w.len() == 0 {
        MaterialStatementModel::Other
    } else if w[0] == ascii("newmtl") && w.len() >= 2 {
        MaterialStatementModel::NewMaterial(w[1])
    } else if w[0] == ascii("Kd") && all_literals(w, 1, 4) {
        MaterialStatementModel::Diffuse(w[1], w[2], w[3])
    } else if w[0] == ascii("map_Kd") && w.len() >= 2 {
        MaterialStatementModel::DiffuseMap(w[1])
    } else {
        MaterialStatementModel::Other
    }
}

/// What a material library gives to one material.
#[derive(Debug, Clone)]
pub enum MaterialEntry {
    /// A diffuse colour: the material, and the three channels as texts.
    Diffuse(Vec<u8>, Vec<u8>, Vec<u8>, Vec<u8>),
    /// A diffuse texture: the material, and the name of the image file.
    Texture(Vec<u8>, Vec<u8>),
}

/// The mathematical content of a `MaterialEntry`.
pub enum MaterialEntryModel {
    Diffuse(Seq<u8>, Seq<u8>, Seq<u8>, Seq<u8>),
    Texture(Seq<u8>, Seq<u8>),
}

impl View for MaterialEntry {
    type V = MaterialEntryModel;

    open spec fn view(&self) -> MaterialEntryModel {
        match *self {
            MaterialEntry::Diffuse(m, r, g, b) => MaterialEntryModel::Diffuse(m@, r@, g@, b@),
            MaterialEntry::Texture(m, file) => MaterialEntryModel::Texture(m@, file@),
        }
    }
}

/// The contents of each entry of a sequence.
pub open spec fn entry_views(entries: Seq<MaterialEntry>) -> Seq<MaterialEntryModel> {
    Seq::new(entries.len(), |i: int| entries[i]@)
}

/// The entries that the lines from the one at `i` on give, where `current`
/// is the material that the lines before have named last. Colours and
/// textures that come before any material are dropped.
pub open spec fn entries_from(lines: Seq<Seq<u8>>, i: int, current: Option<Seq<u8>>) -> Seq<
    MaterialEntryModel,
>
    decreases lines.len() - i,
{
    if i < 0 || i >= lines.len() {
        Seq::empty()
    } else {
        match material_statement_of(lines[i]) {
            MaterialStatementModel::NewMaterial(name) => entries_from(lines, i + 1, Some(name)),
            MaterialStatementModel::Diffuse(r, g, b) => match current {
                Some(m) => seq![MaterialEntryModel::Diffuse(m, r, g, b)] + entries_from(
                    lines,
                    i + 1,
                    current,
                ),
                None => entries_from(lines, i + 1, current),
            },
            MaterialStatementModel::DiffuseMap(file) => match current {
                Some(m) => seq![MaterialEntryModel::Texture(m, file)] + entries_from(
                    lines,
                    i + 1,
                    current,
                ),
                None => entries_from(lines, i + 1, current),
            },
            MaterialStatementModel::Other => entries_from(lines, i + 1, current),
        }
    }
}

/// The entries of a material library, in file order.
pub open spec fn library_spec(bytes: Seq<u8>) -> Seq<MaterialEntryModel> {
    entries_from(lines(bytes), 0, None)
}

/// A copy of the whole of `bytes`.
fn copy_all(bytes: &[u8]) -> (out: Vec<u8>)
    ensures
        out@ == bytes@,
{
    let out = copy_range(bytes, 0, bytes.len());
    out
}

/// What `line` states.
pub fn material_statement(line: &[u8]) -> (r: MaterialStatement)
    ensures
        r@ == material_statement_of(line@),
{
    let w = split_words(line);
    let n = w.len();
    if n == 0 {
        return MaterialStatement::Other;
    }
    proof {
        reveal_strlit("newmtl");
        reveal_strlit("Kd");
        reveal_strlit("map_Kd");
    }
    let head = w[0].as_slice();
    if spells(head, "newmtl") && n >= 2 {
        MaterialStatement::NewMaterial(copy_all(w[1].as_slice()))
    } else if spells(head, "Kd") && n >= 4 && crate::number::float_literal(w[1].as_slice())
        && crate::number::float_literal(w[2].as_slice()) && crate::number::float_literal(
        w[3].as_slice(),
    ) {
        MaterialStatement::Diffuse(
            copy_all(w[1].as_slice()),
            copy_all(w[2].as_slice()),
            copy_all(w[3].as_slice()),
        )
    } else if spells(head, "map_Kd") && n >= 2 {
        MaterialStatement::DiffuseMap(copy_all(w[1].as_slice()))
    } else {
        MaterialStatement::Other
    }
}

/// Reads a material library: its colours and textures in file order, each
/// with the material it belongs to.
pub fn read_material_library(bytes: &[u8]) -> (out: Vec<MaterialEntry>)
    ensures
        entry_views(out@) == library_spec(bytes@),
{
    let n = bytes.len();
    let mut out: Vec<MaterialEntry> = Vec::new();
    let mut current: Option<Vec<u8>> = None;
    let ghost all = lines(bytes@);
    let ghost mut k: int = 0;
    let mut pos: usize = 0;
    while pos < n
        invariant
            pos <= n == bytes@.len(),
            all == lines(bytes@),
            0 <= k <= all.len(),
            all.subrange(k, all.len() as int) == lines_from(bytes@, pos as int),
            library_spec(bytes@) == entry_views(out@) + entries_from(all, k, name_view(current)),
        decreases n - pos,
    {
        let end = next_line(bytes, pos);
        let line = vstd::slice::slice_subrange(bytes, pos, end);
        proof {
            let rest = lines_from(bytes@, pos as int);
            assert(rest[0] == line@);
            assert(all.subrange(k + 1, all.len() as int) =~= rest.subrange(1, rest.len() as int));
        }
        let ghost before = entry_views(out@);
        match material_statement(line) {
            MaterialStatement::NewMaterial(name) => {
                current = Some(name);
            },
            MaterialStatement::Diffuse(r, g, b) => {
                match &current {
                    Some(m) => {
                        let entry = MaterialEntry::Diffuse(copy_all(m.as_slice()), r, g, b);
                        out.push(entry);
                        assert(before + (seq![entry@] + entries_from(
                            all,
                            k + 1,
                            name_view(current),
                        )) =~= entry_views(out@) + entries_from(all, k + 1, name_view(current)));
                    },
                    None => {},
                }
            },
            MaterialStatement::DiffuseMap(file) => {
                match &current {
                    Some(m) => {
                        let entry = MaterialEntry::Texture(copy_all(m.as_slice()), file);
                        out.push(entry);
                        assert(before + (seq![entry@] + entries_from(
                            all,
                            k + 1,
                            name_view(current),
                        )) =~= entry_views(out@) + entries_from(all, k + 1, name_view(current)));
                    },
                    None => {},
                }
            },
            MaterialStatement::Other => {},
        }
        proof {
            k = k + 1;
        }
        pos = end;
    }
    out
}

/// A value under the name of a material.
pub struct Named<T> {
    pub name: Vec<u8>,
    pub value: T,
}

/// The names of a sequence of named values.
pub open spec fn names<T>(entries: Seq<Named<T>>) -> Seq<Seq<u8>> {
    Seq::new(entries.len(), |i: int| entries[i].name@)
}

/// The last place at which `name` stands among `names`.
pub open spec fn last_named(names: Seq<Seq<u8>>, name: Seq<u8>) -> Option<int>
    decreases names.len(),
{
    if names.len() == 0 {
        None
    } else if names.last() == name {
        Some(names.len() - 1)
    } else {
        last_named(names.drop_last(), name)
    }
}

/// The last place of `name` among `names` is a place of `names`, and holds
/// `name`.
pub proof fn lemma_last_named(names: Seq<Seq<u8>>, name: Seq<u8>)
    ensures
        match last_named(names, name) {
            Some(i) => 0 <= i < names.len() && names[i] == name,
            None => !names.contains(name),
        },
    decreases names.len(),
{
    if names.len() > 0 && names.last() != name {
        lemma_last_named(names.drop_last(), name);
        if names.contains(name) {
            let i = choose|i: int| 0 <= i < names.len() && names[i] == name;
            assert(names.drop_last()[i] == name);
        }
    }
}

/// The last place at which `name` stands among `entries`.
fn find<T>(entries: &Vec<Named<T>>, name: &[u8]) -> (r: Option<usize>)
    ensures
        match last_named(names(entries@), name@) {
            Some(i) => r is Some && r->Some_0 == i && 0 <= i < entries@.len(),
            None => r is None,
        },
{
    let ghost all = names(entries@);
    let mut i: usize = entries.len();
    assert(all.subrange(0, i as int) =~= all);
    while i > 0
        invariant
            i <= entries@.len(),
            all == names(entries@),
            last_named(all, name@) == last_named(all.subrange(0, i as int), name@),
        decreases i,
    {
        assert(all.subrange(0, i as int).drop_last() =~= all.subrange(0, i - 1));
        if same_bytes(entries[i - 1].name.as_slice(), name) {
            return Some(i - 1);
        }
        i -= 1;
    }
    None
}

/// Why a face was not built.
#[derive(Debug, Copy, Clone, PartialEq, Eq, Structural)]
pub enum SimpleTexturedBuilderError {
    /// The face has no material, or one that no library has described.
    NoMaterialForFace,
}

/// The material of a face.
pub enum FaceMaterial<'a, T, C> {
    /// A diffuse texture.
    Texture(&'a T),
    /// A diffuse colour.
    Diffuse(&'a C),
}

/// The materials that libraries have described, by name, and the groups
/// whose faces are left out. `T` is what stands for a texture and `C` what
/// stands for a colour.
pub struct SimpleTexturedBuilder<T, C> {
    pub textures: Vec<Named<T>>,
    pub diffuse: Vec<Named<C>>,
    pub filtered_groups: Vec<Vec<u8>>,
    pub wrapping: WrapMode,
}

impl<T, C> SimpleTexturedBuilder<T, C> {
    /// A builder without materials that leaves no group out.
    pub fn new(wrapping: WrapMode) -> (b: Self)
        ensures
            b.textures@.len() == 0,
            b.diffuse@.len() == 0,
            b.filtered_groups@.len() == 0,
            b.wrapping == wrapping,
    {
        SimpleTexturedBuilder {
            textures: Vec::new(),
            diffuse: Vec::new(),
            filtered_groups: Vec::new(),
            wrapping,
        }
    }

    /// A builder without materials that leaves the named groups out.
    pub fn with_filter(wrapping: WrapMode, filtered_groups: Vec<Vec<u8>>) -> (b: Self)
        ensures
            b.textures@.len() == 0,
            b.diffuse@.len() == 0,
            b.filtered_groups == filtered_groups,
            b.wrapping == wrapping,
    {
        SimpleTexturedBuilder {
            textures: Vec::new(),
            diffuse: Vec::new(),
            filtered_groups,
            wrapping,
        }
    }

    /// Gives `material` a texture, in place of any it had.
    pub fn add_texture(&mut self, material: Vec<u8>, texture: T)
        ensures
            final(self).textures@ == old(self).textures@.push(
                Named { name: material, value: texture },
            ),
            final(self).diffuse == old(self).diffuse,
            final(self).filtered_groups == old(self).filtered_groups,
            final(self).wrapping == old(self).wrapping,
    {
        self.textures.push(Named { name: material, value: texture });
    }

    /// Gives `material` a colour, in place of any it had.
    pub fn add_diffuse(&mut self, material: Vec<u8>, colour: C)
        ensures
            final(self).diffuse@ == old(self).diffuse@.push(
                Named { name: material, value: colour },
            ),
            final(self).textures == old(self).textures,
            final(self).filtered_groups == old(self).filtered_groups,
            final(self).wrapping == old(self).wrapping,
    {
        self.diffuse.push(Named { name: material, value: colour });
    }

    /// Whether the faces of the group that `context` names are wanted:
    /// those of every group that is not left out, and those outside any
    /// group.
    pub fn include_group(&self, context: &ObjContext) -> (r: bool)
        ensures
            r == match context@.group {
                Some(group) => !views(self.filtered_groups@).contains(group),
                None => true,
            },
    {
        match context.group() {
            None => true,
            Some(group) => {
                let n = self.filtered_groups.len();
                let ghost all = views(self.filtered_groups@);
                let mut i: usize = 0;
                while i < n
                    invariant
                        i <= n == self.filtered_groups@.len(),
                        all == views(self.filtered_groups@),
                        context@.group == Some(group@),
                        forall|k: int| 0 <= k < i ==> all[k] != group@,
                    decreases n - i,
                {
                    if same_bytes(self.filtered_groups[i].as_slice(), group.as_slice()) {
                        assert(all[i as int] == group@);
                        return false;
                    }
                    i += 1;
                }
                true
            },
        }
    }

    /// The material of a face in `context`: the texture that was given last
    /// to the material in use; failing that, the colour given last to it;
    /// and an error where nothing was given to it or no material is in use.
    pub fn face_material(&self, context: &ObjContext) -> (r: Result<
        FaceMaterial<'_, T, C>,
        SimpleTexturedBuilderError,
    >)
        ensures
            match context@.material {
                None => r is Err,
                Some(m) => match last_named(names(self.textures@), m) {
                    Some(i) => r matches Ok(FaceMaterial::Texture(t)) && *t
                        == self.textures@[i].value,
                    None => match last_named(names(self.diffuse@), m) {
                        Some(i) => r matches Ok(FaceMaterial::Diffuse(c)) && *c
                            == self.diffuse@[i].value,
                        None => r is Err,
                    },
                },
            },
    {
        match context.material() {
            None => Err(SimpleTexturedBuilderError::NoMaterialForFace),
            Some(m) => match find(&self.textures, m.as_slice()) {
                Some(i) => Ok(FaceMaterial::Texture(&self.textures[i].value)),
                None => match find(&self.diffuse, m.as_slice()) {
                    Some(i) => Ok(FaceMaterial::Diffuse(&self.diffuse[i].value)),
                    None => Err(SimpleTexturedBuilderError::NoMaterialForFace),
                },
            },
        }
    }
}


} // verus!
