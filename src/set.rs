//! The in-memory sprite set, and how a parsed container becomes one: names
//! are resolved and each texture is decoded to an image.
use vstd::prelude::*;
use crate::entries::{as_map, entries_view, keys_unique, upsert};
use crate::format::ScreenMode;
use crate::image::{decode_texture, spec_decode, Image, ImageView};
use crate::model::{RawSet, RawSetView, SpriteRecord, Vec4};
use crate::reader::{parse_container, spec_container};

verus! {

/// Why a container could not be read or written.
#[derive(Clone, Copy, Debug, PartialEq, Eq, Structural)]
pub enum SpriteError {
    /// The bytes are not a container: a tag, a pointer, a code or a name
    /// is wrong.
    Malformed,
    /// The bytes are well formed but content is missing: a name, a lookup,
    /// a mip level, a decodable pixel format.
    MissingData,
    /// A name holds a zero byte and cannot be written as terminated text.
    NulInName,
}

/// One record of the auxiliary name database: a declared position and the
/// name stored for it.
#[derive(Clone, Debug)]
pub struct DbEntry {
    pub index: u32,
    pub name: String,
}

/// The auxiliary database's record for one container file.
#[derive(Clone, Debug)]
pub struct DbSet {
    pub filename: String,
    pub name: String,
    pub textures: Vec<DbEntry>,
    pub sprites: Vec<DbEntry>,
}

/// The auxiliary name database: one record per container file.
#[derive(Clone, Debug)]
pub struct SprDb {
    pub sets: Vec<DbSet>,
}

pub ghost struct DbSetView {
    pub name: Seq<char>,
    pub textures: Seq<(u32, Seq<char>)>,
    pub sprites: Seq<(u32, Seq<char>)>,
}

impl View for DbSet {
    type V = DbSetView;

    open spec fn view(&self) -> DbSetView {
        DbSetView {
            name: self.name@,
            textures: self.textures@.map_values(|e: DbEntry| (e.index, e.name@)),
            sprites: self.sprites@.map_values(|e: DbEntry| (e.index, e.name@)),
        }
    }
}

/// A named sub-region of a texture.
#[derive(Clone, Debug)]
pub struct Sprite {
    pub screen_mode: ScreenMode,
    pub texel_region: Vec4,
    pub pixel_region: Vec4,
    pub texture_name: String,
    pub rotate: i32,
}

pub ghost struct SpriteView {
    pub screen_mode: ScreenMode,
    pub texel_region: Vec4,
    pub pixel_region: Vec4,
    pub texture_name: Seq<char>,
    pub rotate: i32,
}

impl View for Sprite {
    type V = SpriteView;

    open spec fn view(&self) -> SpriteView {
        SpriteView {
            screen_mode: self.screen_mode,
            texel_region: self.texel_region,
            pixel_region: self.pixel_region,
            texture_name: self.texture_name@,
            rotate: self.rotate,
        }
    }
}

/// A sprite set: decoded textures and sprites, each keyed by a unique name.
#[derive(Clone, Debug)]
pub struct SprSet {
    pub name: String,
    pub flags: u32,
    pub textures: Vec<(String, Image)>,
    pub sprites: Vec<(String, Sprite)>,
}

pub ghost struct SprSetView {
    pub name: Seq<char>,
    pub flags: u32,
    pub textures: Map<Seq<char>, ImageView>,
    pub sprites: Map<Seq<char>, SpriteView>,
}

impl View for SprSet {
    type V = SprSetView;

    open spec fn view(&self) -> SprSetView {
        SprSetView {
            name: self.name@,
            flags: self.flags,
            textures: as_map(entries_view(self.textures@)),
            sprites: as_map(entries_view(self.sprites@)),
        }
    }
}

impl SprSet {
    /// Texture and sprite names are each unique.
    pub open spec fn wf(&self) -> bool {
        keys_unique(entries_view(self.textures@)) && keys_unique(entries_view(self.sprites@))
    }
}

/// `s` with every match of a non-empty `from` replaced by `to`, matches
/// taken from the left without overlapping.
pub open spec fn replaced(s: Seq<char>, from: Seq<char>, to: Seq<char>) -> Seq<char>
    decreases s.len(),
{
    if from.len() == 0 || s.len() < from.len() {
        s
    } else if s.subrange(0, from.len() as int) == from {
        to + replaced(s.subrange(from.len() as int, s.len() as int), from, to)
    } else {
        seq![s[0]] + replaced(s.drop_first(), from, to)
    }
}

/// `n` without a leading `prefix`; unchanged when it does not start with it.
pub open spec fn strip(n: Seq<char>, prefix: Seq<char>) -> Seq<char> {
    if prefix.is_prefix_of(n) {
        n.subrange(prefix.len() as int, n.len() as int)
    } else {
        n
    }
}

/// Relies on `str::replace`: every non-overlapping match of the pattern,
/// from the left, is replaced.
#[verifier::external_body]
fn replace_all(s: &str, from: &str, to: &str) -> (r: String)
    requires
        from@.len() > 0,
    ensures
        r@ == replaced(s@, from@, to@),
{
    s.replace(from, to)
}

/// Relies on `str::strip_prefix`: the text after `prefix` when `s` starts
/// with it, else nothing.
#[verifier::external_body]
fn strip_prefix(s: &str, prefix: &str) -> (r: Option<String>)
    ensures
        r is Some <==> prefix@.is_prefix_of(s@),
        r matches Some(t) ==> t@ == s@.subrange(prefix@.len() as int, s@.len() as int),
{
    match s.strip_prefix(prefix) {
        Some(t) => Some(t.to_string()),
        None => None,
    }
}

/// The first name in `e` declared for position `i`.
pub open spec fn lookup(e: Seq<(u32, Seq<char>)>, i: int) -> Option<Seq<char>>
    decreases e.len(),
{
    if e.len() == 0 {
        None
    } else {
        match lookup(e.drop_last(), i) {
            Some(n) => Some(n),
            None => if e.last().0 == i {
                Some(e.last().1)
            } else {
                None
            },
        }
    }
}

/// The prefix stripped from database sprite names: the set name and `_`.
pub open spec fn sprite_prefix(db: DbSetView) -> Seq<char> {
    db.name + seq!['_']
}

/// The prefix stripped from database texture names: the sprite prefix with
/// `SPR` turned into `SPRTEX`.
pub open spec fn texture_prefix(db: DbSetView) -> Seq<char> {
    replaced(sprite_prefix(db), "SPR"@, "SPRTEX"@)
}

/// The name an entry ends up with: the embedded one unless it is empty, else
/// the database's name for it with a leading `prefix` removed.
pub open spec fn resolve(embedded: Seq<char>, found: Option<Seq<char>>, prefix: Seq<char>) -> Result<
    Seq<char>,
    SpriteError,
> {
    if embedded.len() > 0 {
        Ok(embedded)
    } else {
        match found {
            Some(n) => Ok(strip(n, prefix)),
            None => Err(SpriteError::MissingData),
        }
    }
}

/// The resolved name of texture `i`.
pub open spec fn texture_name_of(raw: RawSetView, db: Option<DbSetView>, i: int) -> Result<
    Seq<char>,
    SpriteError,
> {
    if i < 0 || i >= raw.texture_names.len() {
        Err(SpriteError::MissingData)
    } else {
        match db {
            Some(d) => resolve(raw.texture_names[i], lookup(d.textures, i), texture_prefix(d)),
            None => resolve(raw.texture_names[i], None, Seq::empty()),
        }
    }
}

/// The resolved name of sprite `i`.
pub open spec fn sprite_name_of(raw: RawSetView, db: Option<DbSetView>, i: int) -> Result<
    Seq<char>,
    SpriteError,
> {
    if i < 0 || i >= raw.sprite_names.len() {
        Err(SpriteError::MissingData)
    } else {
        match db {
            Some(d) => resolve(raw.sprite_names[i], lookup(d.sprites, i), sprite_prefix(d)),
            None => resolve(raw.sprite_names[i], None, Seq::empty()),
        }
    }
}

/// The textures of the first `n` entries, each under its resolved name.
pub open spec fn build_textures(raw: RawSetView, db: Option<DbSetView>, n: nat) -> Result<
    Map<Seq<char>, ImageView>,
    SpriteError,
>
    decreases n,
{
    if n == 0 {
        Ok(Map::empty())
    } else {
        match build_textures(raw, db, (n - 1) as nat) {
            Err(e) => Err(e),
            Ok(m) => match texture_name_of(raw, db, n - 1) {
                Err(e) => Err(e),
                Ok(name) => match spec_decode(raw.textures[n - 1]) {
                    Some(img) => Ok(m.insert(name, img)),
                    None => Err(SpriteError::MissingData),
                },
            },
        }
    }
}

/// Sprite `i` as the in-memory model holds it.
pub open spec fn sprite_of(raw: RawSetView, db: Option<DbSetView>, i: int) -> Result<
    SpriteView,
    SpriteError,
> {
    let rec = raw.sprites[i];
    match texture_name_of(raw, db, rec.texture_index as int) {
        Err(e) => Err(e),
        Ok(texture_name) => if i >= raw.screen_modes.len() {
            Err(SpriteError::MissingData)
        } else {
            Ok(
                SpriteView {
                    screen_mode: raw.screen_modes[i],
                    texel_region: rec.texel_region,
                    pixel_region: rec.pixel_region,
                    texture_name,
                    rotate: rec.rotate,
                },
            )
        },
    }
}

/// The first `n` sprites, each under its resolved name.
pub open spec fn build_sprites(raw: RawSetView, db: Option<DbSetView>, n: nat) -> Result<
    Map<Seq<char>, SpriteView>,
    SpriteError,
>
    decreases n,
{
    if n == 0 {
        Ok(Map::empty())
    } else {
        match build_sprites(raw, db, (n - 1) as nat) {
            Err(e) => Err(e),
            Ok(m) => match sprite_name_of(raw, db, n - 1) {
                Err(e) => Err(e),
                Ok(name) => match sprite_of(raw, db, n - 1) {
                    Err(e) => Err(e),
                    Ok(sp) => Ok(m.insert(name, sp)),
                },
            },
        }
    }
}

/// The sprite set that `s` holds, given the database record for its file.
pub open spec fn spec_read(s: Seq<u8>, db: Option<DbSetView>) -> Result<SprSetView, SpriteError> {
    match spec_container(s) {
        None => Err(SpriteError::Malformed),
        Some(raw) => match build_textures(raw, db, raw.textures.len()) {
            Err(e) => Err(e),
            Ok(textures) => match build_sprites(raw, db, raw.sprites.len()) {
                Err(e) => Err(e),
                Ok(sprites) => Ok(
                    SprSetView {
                        name: match db {
                            Some(d) => d.name,
                            None => Seq::empty(),
                        },
                        flags: raw.flags,
                        textures,
                        sprites,
                    },
                ),
            },
        },
    }
}

pub open spec fn db_view(db: Option<&DbSet>) -> Option<DbSetView> {
    match db {
        Some(d) => Some(d@),
        None => None,
    }
}

proof fn lemma_lookup_extends(e: Seq<(u32, Seq<char>)>, k: int, i: int)
    requires
        0 <= k <= e.len(),
        lookup(e.subrange(0, k), i) is Some,
    ensures
        lookup(e, i) == lookup(e.subrange(0, k), i),
    decreases e.len(),
{
    if e.len() == k {
        assert(e.subrange(0, k) =~= e);
    } else {
        assert(e.drop_last().subrange(0, k) =~= e.subrange(0, k));
        lemma_lookup_extends(e.drop_last(), k, i);
    }
}

proof fn lemma_lookup_out_of_range(e: Seq<(u32, Seq<char>)>, i: int)
    requires
        i > u32::MAX,
    ensures
        lookup(e, i) is None,
    decreases e.len(),
{
    if e.len() > 0 {
        lemma_lookup_out_of_range(e.drop_last(), i);
    }
}

proof fn lemma_textures_err(raw: RawSetView, db: Option<DbSetView>, k: nat, n: nat)
    requires
        k <= n,
        build_textures(raw, db, k) is Err,
    ensures
        build_textures(raw, db, n) == build_textures(raw, db, k),
    decreases n,
{
    if k < n {
        lemma_textures_err(raw, db, k, (n - 1) as nat);
    }
}

proof fn lemma_sprites_err(raw: RawSetView, db: Option<DbSetView>, k: nat, n: nat)
    requires
        k <= n,
        build_sprites(raw, db, k) is Err,
    ensures
        build_sprites(raw, db, n) == build_sprites(raw, db, k),
    decreases n,
{
    if k < n {
        lemma_sprites_err(raw, db, k, (n - 1) as nat);
    }
}

pub open spec fn text_view(o: Option<String>) -> Option<Seq<char>> {
    match o {
        Some(t) => Some(t@),
        None => None,
    }
}

/// The first name in `entries` declared for position `i`.
fn db_lookup(entries: &Vec<DbEntry>, i: u32) -> (r: Option<String>)
    ensures
        r matches Some(n) ==> lookup(entries@.map_values(|e: DbEntry| (e.index, e.name@)), i as int)
            == Some(n@),
        r is None ==> lookup(entries@.map_values(|e: DbEntry| (e.index, e.name@)), i as int) is None,
{
    let ghost ev = entries@.map_values(|e: DbEntry| (e.index, e.name@));
    let mut k: usize = 0;
    while k < entries.len()
        invariant
            k <= entries@.len(),
            ev == entries@.map_values(|e: DbEntry| (e.index, e.name@)),
            lookup(ev.subrange(0, k as int), i as int) is None,
        decreases entries@.len() - k,
    {
        assert(ev.subrange(0, k + 1).drop_last() =~= ev.subrange(0, k as int));
        assert(ev[k as int] == (entries@[k as int].index, entries@[k as int].name@));
        if entries[k].index == i {
            let n = entries[k].name.clone();
            proof {
                lemma_lookup_extends(ev, k + 1, i as int);
            }
            return Some(n);
        }
        k = k + 1;
    }
    assert(ev.subrange(0, k as int) =~= ev);
    None
}

/// The name an entry ends up with, given the name embedded in the container,
/// the database's name for it (if the database has one) and the prefix the
/// database puts before it.
pub fn resolve_name(embedded: &String, found: Option<String>, prefix: &String) -> (r: Result<String, SpriteError>)
    ensures
        r matches Ok(n) ==> resolve(embedded@, text_view(found), prefix@) == Ok::<Seq<char>, SpriteError>(n@),
        r matches Err(e) ==> resolve(embedded@, text_view(found), prefix@) == Err::<Seq<char>, SpriteError>(e),
{
    if !embedded.as_str().is_empty() {
        return Ok(embedded.clone());
    }
    match found {
        Some(n) => match strip_prefix(n.as_str(), prefix.as_str()) {
            Some(t) => Ok(t),
            None => Ok(n),
        },
        None => Err(SpriteError::MissingData),
    }
}

/// The resolved name of texture `i`.
fn texture_name_at(raw: &RawSet, db: Option<&DbSet>, prefix: &String, i: usize) -> (r: Result<String, SpriteError>)
    requires
        db matches Some(d) ==> prefix@ == texture_prefix(d@),
        db is None ==> prefix@ == Seq::<char>::empty(),
    ensures
        r matches Ok(n) ==> texture_name_of(raw@, db_view(db), i as int) == Ok::<Seq<char>, SpriteError>(n@),
        r matches Err(e) ==> texture_name_of(raw@, db_view(db), i as int) == Err::<Seq<char>, SpriteError>(e),
{
    if i >= raw.texture_names.len() {
        return Err(SpriteError::MissingData);
    }
    let k = i;
    assert(raw@.texture_names[k as int] == raw.texture_names@[k as int]@);
    let found = match db {
        Some(d) => if k as u64 <= u32::MAX as u64 {
            db_lookup(&d.textures, k as u32)
        } else {
            proof {
                lemma_lookup_out_of_range(d@.textures, k as int);
            }
            None
        },
        None => None,
    };
    resolve_name(&raw.texture_names[k], found, prefix)
}

/// The resolved name of sprite `i`.
fn sprite_name_at(raw: &RawSet, db: Option<&DbSet>, prefix: &String, i: usize) -> (r: Result<String, SpriteError>)
    requires
        db matches Some(d) ==> prefix@ == sprite_prefix(d@),
        db is None ==> prefix@ == Seq::<char>::empty(),
    ensures
        r matches Ok(n) ==> sprite_name_of(raw@, db_view(db), i as int) == Ok::<Seq<char>, SpriteError>(n@),
        r matches Err(e) ==> sprite_name_of(raw@, db_view(db), i as int) == Err::<Seq<char>, SpriteError>(e),
{
    if i >= raw.sprite_names.len() {
        return Err(SpriteError::MissingData);
    }
    assert(raw@.sprite_names[i as int] == raw.sprite_names@[i as int]@);
    let found = match db {
        Some(d) => if i as u64 <= u32::MAX as u64 {
            db_lookup(&d.sprites, i as u32)
        } else {
            proof {
                lemma_lookup_out_of_range(d@.sprites, i as int);
            }
            None
        },
        None => None,
    };
    resolve_name(&raw.sprite_names[i], found, prefix)
}

/// Every image of `m` holds exactly its RGBA pixels.
pub open spec fn sized(m: Map<Seq<char>, ImageView>) -> bool {
    forall|k: Seq<char>| #[trigger] m.dom().contains(k) ==> m[k].data.len() == 4 * m[k].width * m[k].height
}

/// Adds texture `i` of `raw` to `textures` under its resolved name.
fn add_texture(
    raw: &RawSet,
    db: Option<&DbSet>,
    prefix: &String,
    i: usize,
    textures: &mut Vec<(String, Image)>,
) -> (r: Result<(), SpriteError>)
    requires
        i < raw.textures@.len(),
        db matches Some(d) ==> prefix@ == texture_prefix(d@),
        db is None ==> prefix@ == Seq::<char>::empty(),
        keys_unique(entries_view(old(textures)@)),
        sized(as_map(entries_view(old(textures)@))),
        build_textures(raw@, db_view(db), i as nat) == Ok::<Map<Seq<char>, ImageView>, SpriteError>(
            as_map(entries_view(old(textures)@)),
        ),
    ensures
        r is Ok ==> sized(as_map(entries_view(final(textures)@))),
        r is Ok ==> keys_unique(entries_view(final(textures)@)) && build_textures(raw@, db_view(db), (i + 1) as nat)
            == Ok::<Map<Seq<char>, ImageView>, SpriteError>(as_map(entries_view(final(textures)@))),
        r matches Err(e) ==> build_textures(raw@, db_view(db), (i + 1) as nat) == Err::<
            Map<Seq<char>, ImageView>,
            SpriteError,
        >(e),
{
    assert(raw@.textures[i as int] == raw.textures@[i as int]@);
    let name = match texture_name_at(raw, db, prefix, i) {
        Ok(n) => n,
        Err(e) => return Err(e),
    };
    let img = match decode_texture(&raw.textures[i]) {
        Some(img) => img,
        None => return Err(SpriteError::MissingData),
    };
    upsert(textures, name, img);
    Ok(())
}

/// Adds sprite `j` of `raw` to `sprites` under its resolved name.
fn add_sprite(
    raw: &RawSet,
    db: Option<&DbSet>,
    spr_prefix: &String,
    tex_prefix: &String,
    j: usize,
    sprites: &mut Vec<(String, Sprite)>,
) -> (r: Result<(), SpriteError>)
    requires
        j < raw.sprites@.len(),
        db matches Some(d) ==> tex_prefix@ == texture_prefix(d@),
        db is None ==> tex_prefix@ == Seq::<char>::empty(),
        db matches Some(d) ==> spr_prefix@ == sprite_prefix(d@),
        db is None ==> spr_prefix@ == Seq::<char>::empty(),
        keys_unique(entries_view(old(sprites)@)),
        build_sprites(raw@, db_view(db), j as nat) == Ok::<Map<Seq<char>, SpriteView>, SpriteError>(
            as_map(entries_view(old(sprites)@)),
        ),
    ensures
        r is Ok ==> keys_unique(entries_view(final(sprites)@)) && build_sprites(raw@, db_view(db), (j + 1) as nat)
            == Ok::<Map<Seq<char>, SpriteView>, SpriteError>(as_map(entries_view(final(sprites)@))),
        r matches Err(e) ==> build_sprites(raw@, db_view(db), (j + 1) as nat) == Err::<
            Map<Seq<char>, SpriteView>,
            SpriteError,
        >(e),
{
    let name = match sprite_name_at(raw, db, spr_prefix, j) {
        Ok(n) => n,
        Err(e) => return Err(e),
    };
    let rec: SpriteRecord = raw.sprites[j];
    if rec.texture_index < 0 {
        return Err(SpriteError::MissingData);
    }
    let texture_name = match texture_name_at(raw, db, tex_prefix, rec.texture_index as usize) {
        Ok(n) => n,
        Err(e) => return Err(e),
    };
    if j >= raw.screen_modes.len() {
        return Err(SpriteError::MissingData);
    }
    let sprite = Sprite {
        screen_mode: raw.screen_modes[j],
        texel_region: rec.texel_region,
        pixel_region: rec.pixel_region,
        texture_name,
        rotate: rec.rotate,
    };
    assert(sprite_of(raw@, db_view(db), j as int) == Ok::<SpriteView, SpriteError>(sprite@));
    upsert(sprites, name, sprite);
    Ok(())
}

impl SprSet {
    /// Reads a sprite set from the bytes of a container, resolving empty
    /// names through `db`, the auxiliary database's record for the file, and
    /// decoding each texture to an image. Fails with `Malformed` exactly when
    /// the bytes are not a container, else with `MissingData` exactly when a
    /// name cannot be resolved or a texture cannot be decoded.
    pub fn from_reader(data: &[u8], db: Option<&DbSet>) -> (r: Result<SprSet, SpriteError>)
        ensures
            r matches Ok(set) ==> spec_read(data@, db_view(db)) == Ok::<SprSetView, SpriteError>(set@) && set.wf(),
            r matches Ok(set) ==> sized(set@.textures),
            r matches Err(e) ==> spec_read(data@, db_view(db)) == Err::<SprSetView, SpriteError>(e),
    {
        let raw = match parse_container(data) {
            Some(raw) => raw,
            None => return Err(SpriteError::Malformed),
        };
        let ghost rv = raw@;
        let ghost dbv = db_view(db);
        let (set_name, spr_prefix, tex_prefix) = match db {
            Some(d) => {
                let mut p = d.name.clone();
                p.append("_");
                proof {
                    reveal_strlit("_");
                }
                assert(p@ =~= sprite_prefix(d@));
                proof {
                    reveal_strlit("SPR");
                }
                let t = replace_all(p.as_str(), "SPR", "SPRTEX");
                (d.name.clone(), p, t)
            },
            None => (String::new(), String::new(), String::new()),
        };
        let mut textures: Vec<(String, Image)> = Vec::new();
        let mut i: usize = 0;
        assert(as_map(entries_view(textures@)) =~= Map::empty());
        assert(sized(as_map(entries_view(textures@))));
        while i < raw.textures.len()
            invariant
                i <= raw.textures@.len(),
                rv == raw@,
                spec_container(data@) == Some(rv),
                dbv == db_view(db),
                db matches Some(d) ==> tex_prefix@ == texture_prefix(d@),
                db is None ==> tex_prefix@ == Seq::<char>::empty(),
                keys_unique(entries_view(textures@)),
                sized(as_map(entries_view(textures@))),
                build_textures(rv, dbv, i as nat) == Ok::<Map<Seq<char>, ImageView>, SpriteError>(
                    as_map(entries_view(textures@)),
                ),
            decreases raw.textures@.len() - i,
        {
            if let Err(e) = add_texture(&raw, db, &tex_prefix, i, &mut textures) {
                proof {
                    lemma_textures_err(rv, dbv, (i + 1) as nat, rv.textures.len());
                }
                return Err(e);
            }
            i = i + 1;
        }
        let mut sprites: Vec<(String, Sprite)> = Vec::new();
        let mut j: usize = 0;
        assert(as_map(entries_view(sprites@)) =~= Map::empty());
        while j < raw.sprites.len()
            invariant
                j <= raw.sprites@.len(),
                rv == raw@,
                spec_container(data@) == Some(rv),
                dbv == db_view(db),
                db matches Some(d) ==> tex_prefix@ == texture_prefix(d@),
                db is None ==> tex_prefix@ == Seq::<char>::empty(),
                db matches Some(d) ==> spr_prefix@ == sprite_prefix(d@),
                db is None ==> spr_prefix@ == Seq::<char>::empty(),
                keys_unique(entries_view(sprites@)),
                keys_unique(entries_view(textures@)),
                sized(as_map(entries_view(textures@))),
                build_textures(rv, dbv, rv.textures.len()) == Ok::<Map<Seq<char>, ImageView>, SpriteError>(
                    as_map(entries_view(textures@)),
                ),
                set_name@ == (match dbv {
                    Some(d) => d.name,
                    None => Seq::<char>::empty(),
                }),
                build_sprites(rv, dbv, j as nat) == Ok::<Map<Seq<char>, SpriteView>, SpriteError>(
                    as_map(entries_view(sprites@)),
                ),
            decreases raw.sprites@.len() - j,
        {
            if let Err(e) = add_sprite(&raw, db, &spr_prefix, &tex_prefix, j, &mut sprites) {
                proof {
                    lemma_sprites_err(rv, dbv, (j + 1) as nat, rv.sprites.len());
                }
                return Err(e);
            }
            j = j + 1;
        }
        Ok(SprSet { name: set_name, flags: raw.flags, textures, sprites })
    }
}

/// Whether `db` holds no name for position `i` among `entries`.
pub open spec fn unnamed_in(db: Option<DbSetView>, i: int, textures: bool) -> bool {
    match db {
        None => true,
        Some(d) => lookup(if textures { d.textures } else { d.sprites }, i) is None,
    }
}

/// A texture or sprite whose embedded name is empty, and for which the
/// database record (if one is supplied) holds no name, makes reading fail
/// with missing data.
pub proof fn lemma_unresolved_name_fails(s: Seq<u8>, db: Option<DbSetView>)
    requires
        spec_container(s) is Some,
        (exists|i: int| 0 <= i < spec_container(s).unwrap().texture_names.len()
            && #[trigger] spec_container(s).unwrap().texture_names[i].len() == 0
            && i < spec_container(s).unwrap().textures.len() && unnamed_in(db, i, true)) || (exists|j: int|
            0 <= j < spec_container(s).unwrap().sprite_names.len()
            && #[trigger] spec_container(s).unwrap().sprite_names[j].len() == 0
            && j < spec_container(s).unwrap().sprites.len() && unnamed_in(db, j, false)),
    ensures
        spec_read(s, db) == Err::<SprSetView, SpriteError>(SpriteError::MissingData),
{
    let raw = spec_container(s).unwrap();
    lemma_textures_only_missing(raw, db, raw.textures.len());
    if exists|i: int| 0 <= i < raw.texture_names.len() && #[trigger] raw.texture_names[i].len() == 0 && i < raw.textures.len()
        && unnamed_in(db, i, true) {
        let i = choose|i: int| 0 <= i < raw.texture_names.len() && #[trigger] raw.texture_names[i].len() == 0 && i < raw.textures.len()
            && unnamed_in(db, i, true);
        lemma_textures_stop(raw, db, i, raw.textures.len());
    } else {
        let j = choose|j: int| 0 <= j < raw.sprite_names.len() && #[trigger] raw.sprite_names[j].len() == 0 && j < raw.sprites.len()
            && unnamed_in(db, j, false);
        lemma_sprites_only_missing(raw, db, raw.sprites.len());
        lemma_sprites_stop(raw, db, j, raw.sprites.len());
    }
}

/// A container holding a texture whose first level cannot be decoded (a
/// pixel format outside the block-compressed families the decoder covers,
/// such as raw RGBA) reads as missing data, never as a set.
pub proof fn lemma_undecodable_texture_fails(s: Seq<u8>, db: Option<DbSetView>, i: int)
    requires
        spec_container(s) is Some,
        0 <= i < spec_container(s).unwrap().textures.len(),
        spec_decode(spec_container(s).unwrap().textures[i]) is None,
    ensures
        spec_read(s, db) == Err::<SprSetView, SpriteError>(SpriteError::MissingData),
{
    let raw = spec_container(s).unwrap();
    assert(build_textures(raw, db, (i + 1) as nat) is Err);
    lemma_textures_err(raw, db, (i + 1) as nat, raw.textures.len());
    lemma_textures_only_missing(raw, db, raw.textures.len());
}

proof fn lemma_textures_only_missing(raw: RawSetView, db: Option<DbSetView>, n: nat)
    ensures
        build_textures(raw, db, n) is Err ==> build_textures(raw, db, n) == Err::<Map<Seq<char>, ImageView>, SpriteError>(SpriteError::MissingData),
    decreases n,
{
    if n > 0 {
        lemma_textures_only_missing(raw, db, (n - 1) as nat);
    }
}

proof fn lemma_sprites_only_missing(raw: RawSetView, db: Option<DbSetView>, n: nat)
    ensures
        build_sprites(raw, db, n) is Err ==> build_sprites(raw, db, n) == Err::<Map<Seq<char>, SpriteView>, SpriteError>(SpriteError::MissingData),
    decreases n,
{
    if n > 0 {
        lemma_sprites_only_missing(raw, db, (n - 1) as nat);
    }
}

proof fn lemma_textures_stop(raw: RawSetView, db: Option<DbSetView>, i: int, n: nat)
    requires
        0 <= i < n,
        texture_name_of(raw, db, i) is Err,
    ensures
        build_textures(raw, db, n) is Err,
    decreases n,
{
    if i < n - 1 {
        lemma_textures_stop(raw, db, i, (n - 1) as nat);
    }
}

proof fn lemma_sprites_stop(raw: RawSetView, db: Option<DbSetView>, j: int, n: nat)
    requires
        0 <= j < n,
        sprite_name_of(raw, db, j) is Err,
    ensures
        build_sprites(raw, db, n) is Err,
    decreases n,
{
    if j < n - 1 {
        lemma_sprites_stop(raw, db, j, (n - 1) as nat);
    }
}

/// The first record of `spr_db` kept for the container file `filename`.
pub fn get_spr_db_set<'a>(filename: &str, spr_db: &'a SprDb) -> (r: Option<&'a DbSet>)
    ensures
        r matches Some(d) ==> exists|i: int|
            0 <= i < spr_db.sets@.len() && spr_db.sets@[i] == *d && d.filename@ == filename@ && forall|j: int|
                0 <= j < i ==> (#[trigger] spr_db.sets@[j]).filename@ != filename@,
        r is None ==> forall|j: int| 0 <= j < spr_db.sets@.len() ==> (#[trigger] spr_db.sets@[j]).filename@ != filename@,
{
    let wanted = filename.to_owned();
    let mut i: usize = 0;
    while i < spr_db.sets.len()
        invariant
            i <= spr_db.sets@.len(),
            wanted@ == filename@,
            forall|j: int| 0 <= j < i ==> (#[trigger] spr_db.sets@[j]).filename@ != filename@,
        decreases spr_db.sets@.len() - i,
    {
        if spr_db.sets[i].filename.eq(&wanted) {
            return Some(&spr_db.sets[i]);
        }
        i = i + 1;
    }
    None
}

} // verus!
