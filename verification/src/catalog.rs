//! The font catalog: a deduplicated, display-ready list of family names.
//!
//! A font database exposes faces; each face carries an opaque identifier and
//! one or more family names. Rebuilding the catalog walks the faces in
//! database order and appends every family name not listed yet, together
//! with the identifier of the face it was first seen on. A name a later
//! face also exposes is never added again, so the catalog lists each name
//! exactly once, in first-seen order.

use vstd::prelude::*;

verus! {

/// One face of a font database, as the catalog reads it: the database's
/// opaque identifier for the face, and every family name the face exposes.
pub struct FaceRec {
    pub id: u64,
    pub families: Vec<String>,
}

/// One row of the catalog: a face identifier and one family name that face
/// is listed under. Two rows mean the same face exactly when their
/// identifiers agree; the name is descriptive only.
#[derive(Debug, Hash)]
pub struct Font {
    pub id: u64,
    pub name: String,
}

impl Font {
    /// Do the two rows name the same face? Rows are compared by identifier
    /// alone.
    pub fn same_face(&self, other: &Font) -> (r: bool)
        ensures
            r == (self.id == other.id),
    {
        self.id == other.id
    }

    /// The text shown for this row: its family name.
    pub fn display_name(&self) -> (r: String)
        ensures
            r@ == self.name@,
    {
        self.name.clone()
    }
}

/// The catalog shown to the user.
pub struct Fonts {
    pub fonts: Vec<Font>,
}

/// The model of one row: its identifier and the characters of its name.
pub open spec fn entry_of(f: Font) -> (u64, Seq<char>) {
    (f.id, f.name@)
}

/// The model of a row list.
pub open spec fn entries(fs: Seq<Font>) -> Seq<(u64, Seq<char>)> {
    fs.map_values(|f: Font| entry_of(f))
}

/// Does `acc` already list `name`?
pub open spec fn has_name(acc: Seq<(u64, Seq<char>)>, name: Seq<char>) -> bool {
    exists|k: int| 0 <= k < acc.len() && acc[k].1 == name
}

/// The catalog left after walking the faces from face `f`, family `j`
/// onwards, with `acc` already built: every family name not yet listed is
/// appended with its face's identifier, in the order the walk meets it.
pub open spec fn walk(
    faces: Seq<FaceRec>,
    f: int,
    j: int,
    acc: Seq<(u64, Seq<char>)>,
) -> Seq<(u64, Seq<char>)>
    decreases
            (if 0 <= f < faces.len() {
                faces.len() - f
            } else {
                0
            }),
            (if 0 <= f < faces.len() && 0 <= j < faces[f].families@.len() {
                faces[f].families@.len() - j
            } else {
                0
            }),
{
    if !(0 <= f < faces.len()) {
        acc
    } else if !(0 <= j < faces[f].families@.len()) {
        walk(faces, f + 1, 0, acc)
    } else {
        let e = (faces[f].id, faces[f].families@[j]@);
        walk(
            faces,
            f,
            j + 1,
            if has_name(acc, e.1) {
                acc
            } else {
                acc.push(e)
            },
        )
    }
}

/// The whole catalog of a face list.
pub open spec fn spec_catalog(faces: Seq<FaceRec>) -> Seq<(u64, Seq<char>)> {
    walk(faces, 0, 0, Seq::empty())
}

/// No two rows carry the same family name.
pub open spec fn names_distinct(es: Seq<(u64, Seq<char>)>) -> bool {
    forall|i: int, k: int| 0 <= i < k < es.len() ==> es[i].1 != es[k].1
}

/// Is `name` already listed in `fonts`?
fn contains_name(fonts: &Vec<Font>, name: &String) -> (r: bool)
    ensures
        r == has_name(entries(fonts@), name@),
{
    let mut k: usize = 0;
    while k < fonts.len()
        invariant
            0 <= k <= fonts@.len(),
            forall|t: int| 0 <= t < k ==> entries(fonts@)[t].1 != name@,
        decreases fonts@.len() - k,
    {
        if fonts[k].name.eq(name) {
            assert(entries(fonts@)[k as int].1 == name@);
            return true;
        }
        assert(entries(fonts@)[k as int].1 != name@);
        k = k + 1;
    }
    assert(!has_name(entries(fonts@), name@));
    false
}

impl Default for Fonts {
    /// The catalog starts empty.
    fn default() -> (r: Self)
        ensures
            r.fonts@.len() == 0,
    {
        Fonts { fonts: Vec::new() }
    }
}

impl Fonts {
    /// Replace the whole catalog with the one the given faces yield: every
    /// family name once, in first-seen order, under the identifier of the
    /// face it was first seen on. An empty face list yields an empty
    /// catalog.
    pub fn rebuild(&mut self, faces: &Vec<FaceRec>)
        ensures
            entries(final(self).fonts@) == spec_catalog(faces@),
            faces@.len() == 0 ==> final(self).fonts@.len() == 0,
            names_distinct(entries(final(self).fonts@)),
    {
        self.fonts.clear();
        assert(entries(self.fonts@) =~= Seq::<(u64, Seq<char>)>::empty());
        let mut f: usize = 0;
        while f < faces.len()
            invariant
                0 <= f <= faces@.len(),
                spec_catalog(faces@) == walk(faces@, f as int, 0, entries(self.fonts@)),
            decreases faces@.len() - f,
        {
            let face = &faces[f];
            let mut j: usize = 0;
            while j < face.families.len()
                invariant
                    0 <= f < faces@.len(),
                    *face == faces@[f as int],
                    0 <= j <= face.families@.len(),
                    spec_catalog(faces@) == walk(faces@, f as int, j as int, entries(self.fonts@)),
                decreases face.families@.len() - j,
            {
                let name = &face.families[j];
                let ghost acc0 = entries(self.fonts@);
                let ghost e = (faces@[f as int].id, faces@[f as int].families@[j as int]@);
                let dup = contains_name(&self.fonts, name);
                if !dup {
                    self.fonts.push(Font { id: face.id, name: name.clone() });
                    assert(entries(self.fonts@) =~= acc0.push(e));
                }
                proof {
                    assert(walk(faces@, f as int, j as int, acc0) == walk(
                        faces@,
                        f as int,
                        j as int + 1,
                        entries(self.fonts@),
                    ));
                }
                j = j + 1;
            }
            proof {
                assert(walk(faces@, f as int, j as int, entries(self.fonts@)) == walk(
                    faces@,
                    f as int + 1,
                    0,
                    entries(self.fonts@),
                ));
            }
            f = f + 1;
        }
        proof {
            assert(walk(faces@, f as int, 0, entries(self.fonts@)) == entries(self.fonts@));
            if faces@.len() == 0 {
                assert(entries(final(self).fonts@).len() == 0);
            }
            lemma_walk_distinct(faces@, 0, 0, Seq::empty());
        }
    }

    /// How many rows the catalog has.
    pub fn len(&self) -> (n: usize)
        ensures
            n == self.fonts@.len(),
    {
        self.fonts.len()
    }
}

/// A walk that starts from a catalog without repeated names ends in one.
proof fn lemma_walk_distinct(faces: Seq<FaceRec>, f: int, j: int, acc: Seq<(u64, Seq<char>)>)
    requires
        names_distinct(acc),
    ensures
        names_distinct(walk(faces, f, j, acc)),
    decreases
            (if 0 <= f < faces.len() {
                faces.len() - f
            } else {
                0
            }),
            (if 0 <= f < faces.len() && 0 <= j < faces[f].families@.len() {
                faces[f].families@.len() - j
            } else {
                0
            }),
{
    if !(0 <= f < faces.len()) {
    } else if !(0 <= j < faces[f].families@.len()) {
        lemma_walk_distinct(faces, f + 1, 0, acc);
    } else {
        let e = (faces[f].id, faces[f].families@[j]@);
        if has_name(acc, e.1) {
            lemma_walk_distinct(faces, f, j + 1, acc);
        } else {
            let acc2 = acc.push(e);
            assert forall|i: int, k: int| 0 <= i < k < acc2.len() implies acc2[i].1 != acc2[k].1 by {
                if k < acc.len() {
                    assert(acc[i].1 != acc[k].1);
                } else {
                    if acc2[i].1 == e.1 {
                        assert(has_name(acc, e.1));
                    }
                }
            }
            lemma_walk_distinct(faces, f, j + 1, acc2);
        }
    }
}

/// Does any face from face `f`, family `j` onwards expose `name`?
pub open spec fn exposed_from(faces: Seq<FaceRec>, f: int, j: int, name: Seq<char>) -> bool {
    exists|g: int, k: int|
        {
            &&& f <= g < faces.len()
            &&& 0 <= k < faces[g].families@.len()
            &&& (g > f || k >= j)
            &&& #[trigger] faces[g].families@[k]@ == name
        }
}

/// Does any face of the database expose `name`?
pub open spec fn exposed(faces: Seq<FaceRec>, name: Seq<char>) -> bool {
    exposed_from(faces, 0, 0, name)
}

/// A walk lists a name exactly when it started with it or still meets it.
proof fn lemma_walk_names(
    faces: Seq<FaceRec>,
    f: int,
    j: int,
    acc: Seq<(u64, Seq<char>)>,
    name: Seq<char>,
)
    requires
        0 <= f,
        0 <= j,
    ensures
        has_name(walk(faces, f, j, acc), name) <==> (has_name(acc, name) || exposed_from(
            faces,
            f,
            j,
            name,
        )),
    decreases
            (if 0 <= f < faces.len() {
                faces.len() - f
            } else {
                0
            }),
            (if 0 <= f < faces.len() && 0 <= j < faces[f].families@.len() {
                faces[f].families@.len() - j
            } else {
                0
            }),
{
    if !(0 <= f < faces.len()) {
        if exposed_from(faces, f, j, name) {
            let (g, k) = choose|g: int, k: int|
                f <= g < faces.len() && 0 <= k < faces[g].families@.len() && (g > f || k >= j)
                    && #[trigger] faces[g].families@[k]@ == name;
            assert(false);
        }
    } else if !(0 <= j < faces[f].families@.len()) {
        lemma_walk_names(faces, f + 1, 0, acc, name);
        // A name met from the next face on is met from here, and the other
        // way round: position (`f`, `j`) itself is past this face's last
        // family.
        if exposed_from(faces, f + 1, 0, name) {
            let (g, k) = choose|g: int, k: int|
                f + 1 <= g < faces.len() && 0 <= k < faces[g].families@.len() && (g > f + 1 || k
                    >= 0) && #[trigger] faces[g].families@[k]@ == name;
            assert(exposed_from(faces, f, j, name));
        }
        if exposed_from(faces, f, j, name) {
            let (g, k) = choose|g: int, k: int|
                f <= g < faces.len() && 0 <= k < faces[g].families@.len() && (g > f || k >= j)
                    && #[trigger] faces[g].families@[k]@ == name;
            assert(g > f);
            assert(exposed_from(faces, f + 1, 0, name));
        }
    } else {
        let e = (faces[f].id, faces[f].families@[j]@);
        let acc2 = if has_name(acc, e.1) {
            acc
        } else {
            acc.push(e)
        };
        lemma_walk_names(faces, f, j + 1, acc2, name);
        if has_name(acc, name) {
            assert(has_name(acc2, name)) by {
                let t = choose|t: int| 0 <= t < acc.len() && acc[t].1 == name;
                assert(acc2[t].1 == name);
            }
        }
        if has_name(acc2, name) && !has_name(acc, name) {
            // The only new row is this face's family `j`.
            let t = choose|t: int| 0 <= t < acc2.len() && acc2[t].1 == name;
            assert(name == e.1);
            assert(faces[f].families@[j]@ == name);
            assert(exposed_from(faces, f, j, name));
        }
        if exposed_from(faces, f, j + 1, name) {
            let (g, k) = choose|g: int, k: int|
                f <= g < faces.len() && 0 <= k < faces[g].families@.len() && (g > f || k >= j + 1)
                    && #[trigger] faces[g].families@[k]@ == name;
            assert(exposed_from(faces, f, j, name));
        }
        if exposed_from(faces, f, j, name) && name != e.1 {
            let (g, k) = choose|g: int, k: int|
                f <= g < faces.len() && 0 <= k < faces[g].families@.len() && (g > f || k >= j)
                    && #[trigger] faces[g].families@[k]@ == name;
            assert(g > f || k >= j + 1 || (g == f && k == j));
            assert(exposed_from(faces, f, j + 1, name));
        }
        if name == e.1 {
            assert(exposed_from(faces, f, j, name));
            assert(has_name(acc2, name)) by {
                if has_name(acc, e.1) {
                } else {
                    assert(acc2[acc.len() as int].1 == name);
                }
            }
            assert(has_name(walk(faces, f, j, acc), name)) by {
                assert(walk(faces, f, j, acc) == walk(faces, f, j + 1, acc2));
            }
        }
    }
}

/// The catalog lists a family name exactly when some face of the database
/// exposes it: nothing is lost to deduplication but repetitions, and
/// nothing is invented.
pub proof fn lemma_catalog_names(faces: Seq<FaceRec>, name: Seq<char>)
    ensures
        has_name(spec_catalog(faces), name) <==> exposed(faces, name),
{
    lemma_walk_names(faces, 0, 0, Seq::empty(), name);
}

/// An empty font database yields an empty catalog.
pub proof fn lemma_empty_catalog()
    ensures
        spec_catalog(Seq::<FaceRec>::empty()) == Seq::<(u64, Seq<char>)>::empty(),
{
    assert(walk(Seq::<FaceRec>::empty(), 0, 0, Seq::<(u64, Seq<char>)>::empty())
        == Seq::<(u64, Seq<char>)>::empty());
}

/// Rebuilding from the same face list always yields the same catalog:
/// two catalogs built from one unchanged database are identical.
pub proof fn lemma_catalog_deterministic(faces1: Seq<FaceRec>, faces2: Seq<FaceRec>)
    requires
        faces1 == faces2,
    ensures
        spec_catalog(faces1) == spec_catalog(faces2),
{
}

} // verus!
