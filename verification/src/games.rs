//! The game catalog and its reconciliation scan: consoles, games keyed by
//! (console, rom filename), and the idempotent, monotonic directory scan
//! that inserts newly discovered ROM files and never touches existing rows.

use vstd::prelude::*;
use vstd::string::{StrSliceExecFns, StringExecFns};
use vstd::multiset::Multiset;
use crate::errors::ApiError;
use crate::auth_service::not_found_msg;
use crate::text::{push_char, str_eq};

verus! {

broadcast use vstd::seq_lib::group_to_multiset_ensures, vstd::multiset::lemma_multiset_empty_len;

/// A static reference console entry.
#[derive(Clone, Debug)]
pub struct Console {
    pub id: String,
    pub name: String,
    pub manufacturer: Option<String>,
    pub release_year: Option<i32>,
    pub icon_url: Option<String>,
    pub emulator_core: String,
    pub supported_extensions: Vec<String>,
}

/// A catalog row: one playable title backed by one ROM file.
#[derive(Clone, Debug)]
pub struct Game {
    pub id: u128,
    pub console_id: String,
    pub title: String,
    pub rom_filename: String,
    pub rom_size_bytes: i64,
    pub cover_url: Option<String>,
    pub description: Option<String>,
    pub release_year: Option<i32>,
    pub developer: Option<String>,
    pub genre: Option<String>,
    pub created_at: i64,
    pub uploaded_by: Option<u128>,
}

fn clone_opt_string(o: &Option<String>) -> (r: Option<String>)
    ensures
        r == *o,
{
    match o {
        Some(s) => Some(s.clone()),
        None => None,
    }
}

impl Game {
    /// An owned field-for-field copy of the row.
    pub fn duplicate(&self) -> (g: Game)
        ensures
            g == *self,
    {
        Game {
            id: self.id,
            console_id: self.console_id.clone(),
            title: self.title.clone(),
            rom_filename: self.rom_filename.clone(),
            rom_size_bytes: self.rom_size_bytes,
            cover_url: clone_opt_string(&self.cover_url),
            description: clone_opt_string(&self.description),
            release_year: self.release_year,
            developer: clone_opt_string(&self.developer),
            genre: clone_opt_string(&self.genre),
            created_at: self.created_at,
            uploaded_by: self.uploaded_by,
        }
    }
}

/// A caller-supplied game description (used by upload tooling).
pub struct GameUploadRequest {
    pub console_id: String,
    pub title: String,
    pub description: Option<String>,
    pub release_year: Option<i32>,
    pub developer: Option<String>,
    pub genre: Option<String>,
}

/// One page of catalog rows together with the total count of matches.
pub struct GameListResponse {
    pub games: Vec<Game>,
    pub total: i64,
}

/// One file found in a console's ROM directory.
pub struct RomFile {
    pub name: String,
    pub size_bytes: i64,
}

/// The index of the last dot in a name, if any.
pub open spec fn last_dot(s: Seq<char>) -> Option<int>
    decreases s.len(),
{
    if s.len() == 0 {
        None
    } else if s.last() == '.' {
        Some(s.len() - 1)
    } else {
        last_dot(s.drop_last())
    }
}

/// The extension including its dot (empty when there is none, or when the
/// name starts with its only dot).
pub open spec fn ext_str(name: Seq<char>) -> Seq<char> {
    match last_dot(name) {
        Some(i) => if i > 0 {
            name.skip(i)
        } else {
            Seq::<char>::empty()
        },
        None => Seq::<char>::empty(),
    }
}

/// Whether a console supports a file, judged by its extension.
pub open spec fn supported_ext(console: &Console, name: Seq<char>) -> bool {
    exists|k: int|
        0 <= k < console.supported_extensions@.len() && (#[trigger] console.supported_extensions@[k])@
            == ext_str(name)
}

/// The human-readable title of a ROM file: the name with its extension
/// stripped and separator characters replaced by spaces.
pub open spec fn title_of(name: Seq<char>) -> Seq<char> {
    let stem = name.take(name.len() - ext_str(name).len());
    Seq::new(
        stem.len(),
        |i: int|
            if stem[i] == '_' || stem[i] == '-' {
                ' '
            } else {
                stem[i]
            },
    )
}

/// Whether a (console, rom filename) pair is already cataloged.
pub open spec fn has_game(rows: Seq<Game>, console_id: Seq<char>, filename: Seq<char>) -> bool {
    exists|i: int|
        0 <= i < rows.len() && (#[trigger] rows[i]).console_id@ == console_id
            && rows[i].rom_filename@ == filename
}

/// Catalog rows pairwise distinct in id and in (console, rom filename).
pub open spec fn games_distinct(rows: Seq<Game>) -> bool {
    forall|i: int, j: int|
        #![trigger rows[i], rows[j]]
        0 <= i < j < rows.len() ==> rows[i].id != rows[j].id && !(rows[i].console_id@
            == rows[j].console_id@ && rows[i].rom_filename@ == rows[j].rom_filename@)
}

proof fn lemma_last_dot_bound(s: Seq<char>)
    ensures
        last_dot(s) matches Some(i) ==> 0 <= i < s.len(),
    decreases s.len(),
{
    if s.len() > 0 && s.last() != '.' {
        lemma_last_dot_bound(s.drop_last());
    }
}

/// The start index of a name's extension, or the name's length when it has
/// none worth keeping.
fn find_ext_start(name: &str) -> (r: Option<usize>)
    ensures
        match r {
            Some(i) => last_dot(name@) == Some(i as int),
            None => last_dot(name@) is None,
        },
{
    let len = name.unicode_len();
    assert(name@.take(len as int) =~= name@);
    let mut i: usize = len;
    while i > 0
        invariant
            len == name@.len(),
            0 <= i <= len,
            last_dot(name@) == last_dot(name@.take(i as int)),
        decreases i,
    {
        i = i - 1;
        proof {
            assert(name@.take(i + 1).drop_last() =~= name@.take(i as int));
            assert(name@.take(i + 1).last() == name@[i as int]);
        }
        if name.get_char(i) == '.' {
            return Some(i);
        }
    }
    assert(name@.take(0) =~= Seq::<char>::empty());
    None
}

/// The extension of a name, dot included, as the empty slice when absent.
fn extension_of<'a>(name: &'a str) -> (r: &'a str)
    ensures
        r@ == ext_str(name@),
        r@.len() <= name@.len(),
{
    proof {
        lemma_last_dot_bound(name@);
    }
    let len = name.unicode_len();
    match find_ext_start(name) {
        Some(i) => {
            if i > 0 {
                let e = name.substring_char(i, len);
                assert(e@ =~= name@.skip(i as int));
                e
            } else {
                let e = name.substring_char(0, 0);
                assert(e@ =~= Seq::<char>::empty());
                e
            }
        },
        None => {
            let e = name.substring_char(0, 0);
            assert(e@ =~= Seq::<char>::empty());
            e
        },
    }
}

/// Whether any of the console's extensions matches the file's.
fn is_supported(console: &Console, name: &str) -> (r: bool)
    ensures
        r == supported_ext(console, name@),
{
    let ext = extension_of(name);
    let n = console.supported_extensions.len();
    let mut k: usize = 0;
    while k < n
        invariant
            n == console.supported_extensions@.len(),
            0 <= k <= n,
            ext@ == ext_str(name@),
            forall|t: int|
                0 <= t < k ==> (#[trigger] console.supported_extensions@[t])@ != ext_str(name@),
        decreases n - k,
    {
        if str_eq(console.supported_extensions[k].as_str(), ext) {
            return true;
        }
        k = k + 1;
    }
    false
}

/// Derives the display title from a filename.
fn derive_title(name: &str) -> (r: String)
    ensures
        r@ == title_of(name@),
{
    let len = name.unicode_len();
    let ext = extension_of(name);
    let stem_len = len - ext.unicode_len();
    assert(title_of(name@).len() == stem_len);
    assert(name@.take(stem_len as int) =~= name@.take(name@.len() - ext_str(name@).len()));
    let mut out = String::new();
    let mut i: usize = 0;
    while i < stem_len
        invariant
            stem_len <= len == name@.len(),
            ext_str(name@).len() <= name@.len(),
            stem_len == name@.len() - ext_str(name@).len(),
            title_of(name@).len() == stem_len,
            0 <= i <= stem_len,
            out@.len() == i,
            forall|j: int| 0 <= j < i ==> #[trigger] out@[j] == title_of(name@)[j],
        decreases stem_len - i,
    {
        let c = name.get_char(i);
        if c == '_' || c == '-' {
            push_char(&mut out, ' ');
        } else {
            push_char(&mut out, c);
        }
        proof {
            let stem = name@.take(name@.len() - ext_str(name@).len());
            assert(stem.len() == stem_len);
            assert(0 <= (i as int) && (i as int) < stem.len());
            assert(stem[i as int] == name@[i as int]);
            assert(title_of(name@)[i as int] == (if stem[i as int] == '_' || stem[i as int] == '-' {
                ' '
            } else {
                stem[i as int]
            }));
        }
        i = i + 1;
    }
    assert(out@ =~= title_of(name@));
    out
}

/// The `games` table model with its fresh-id counter.
pub struct GameTable {
    rows_vec: Vec<Game>,
    next_id: u128,
}

impl GameTable {
    pub closed spec fn rows(&self) -> Seq<Game> {
        self.rows_vec@
    }

    pub closed spec fn spec_next_id(&self) -> u128 {
        self.next_id
    }

    pub open spec fn wf(&self) -> bool {
        &&& games_distinct(self.rows())
        &&& forall|i: int|
            0 <= i < self.rows().len() ==> (#[trigger] self.rows()[i]).id < self.spec_next_id()
    }

    pub open spec fn has_id(&self, id: u128) -> bool {
        exists|i: int| 0 <= i < self.rows().len() && (#[trigger] self.rows()[i]).id == id
    }

    pub fn new() -> (t: GameTable)
        ensures
            t.wf(),
            t.rows().len() == 0,
    {
        GameTable { rows_vec: Vec::new(), next_id: 1 }
    }

    pub fn len(&self) -> (n: usize)
        ensures
            n == self.rows().len(),
    {
        self.rows_vec.len()
    }

    /// The next identifier the store would assign.
    pub fn fresh_id(&self) -> (id: u128)
        ensures
            id == self.spec_next_id(),
    {
        self.next_id
    }

    pub fn find_by_id(&self, id: u128) -> (r: Option<&Game>)
        ensures
            match r {
                Some(g) => g.id == id && exists|i: int|
                    0 <= i < self.rows().len() && #[trigger] self.rows()[i] == *g,
                None => !self.has_id(id),
            },
    {
        let n = self.rows_vec.len();
        let mut i: usize = 0;
        while i < n
            invariant
                n == self.rows().len(),
                0 <= i <= n,
                forall|j: int| 0 <= j < i ==> (#[trigger] self.rows()[j]).id != id,
            decreases n - i,
        {
            if self.rows_vec[i].id == id {
                return Some(&self.rows_vec[i]);
            }
            i = i + 1;
        }
        None
    }

    fn contains_game(&self, console_id: &str, filename: &str) -> (r: bool)
        ensures
            r == has_game(self.rows(), console_id@, filename@),
    {
        let n = self.rows_vec.len();
        let mut i: usize = 0;
        while i < n
            invariant
                n == self.rows().len(),
                0 <= i <= n,
                forall|j: int|
                    0 <= j < i ==> !((#[trigger] self.rows()[j]).console_id@ == console_id@
                        && self.rows()[j].rom_filename@ == filename@),
            decreases n - i,
        {
            if str_eq(self.rows_vec[i].console_id.as_str(), console_id) && str_eq(
                self.rows_vec[i].rom_filename.as_str(),
                filename,
            ) {
                return true;
            }
            i = i + 1;
        }
        false
    }
}

/// The row the scan inserts for one discovered file.
pub open spec fn scanned_game(
    row: Game,
    console_id: Seq<char>,
    f: RomFile,
    now: i64,
) -> bool {
    &&& row.console_id@ == console_id
    &&& row.rom_filename@ == f.name@
    &&& row.title@ == title_of(f.name@)
    &&& row.rom_size_bytes == f.size_bytes
    &&& row.cover_url is None
    &&& row.description is None
    &&& row.release_year is None
    &&& row.developer is None
    &&& row.genre is None
    &&& row.created_at == now
    &&& row.uploaded_by is None
}

/// The number of files in the listings from index `k` on.
pub open spec fn files_after(listings: Seq<Option<Vec<RomFile>>>, k: int) -> nat
    decreases listings.len() - k,
{
    if k < 0 || k >= listings.len() {
        0
    } else {
        (match listings[k] {
            Some(files) => files@.len(),
            None => 0,
        }) + files_after(listings, k + 1)
    }
}

/// How many files console `c`'s listing holds (none when the directory was
/// absent).
pub open spec fn listing_len(listings: Seq<Option<Vec<RomFile>>>, c: int) -> nat {
    if 0 <= c < listings.len() {
        match listings[c] {
            Some(files) => files@.len(),
            None => 0,
        }
    } else {
        0
    }
}

/// File `k` of console `c`'s listing (meaningful below `listing_len`).
pub open spec fn listing_file(listings: Seq<Option<Vec<RomFile>>>, c: int, k: int) -> RomFile {
    match listings[c] {
        Some(files) => files@[k],
        None => vstd::pervasive::arbitrary(),
    }
}

/// Every supported file of every present listing is cataloged in `rows`.
pub open spec fn listings_cataloged(
    consoles: Seq<Console>,
    listings: Seq<Option<Vec<RomFile>>>,
    rows: Seq<Game>,
) -> bool {
    forall|c: int, k: int|
        0 <= c < consoles.len() && 0 <= k < listing_len(listings, c) && supported_ext(
            &consoles[c],
            (#[trigger] listing_file(listings, c, k)).name@,
        ) ==> has_game(rows, consoles[c].id@, listing_file(listings, c, k).name@)
}

/// The row is one the scan inserted: derived from a supported file of some
/// present listing that `old_rows` did not yet catalog.
pub open spec fn scan_inserts(
    row: Game,
    consoles: Seq<Console>,
    listings: Seq<Option<Vec<RomFile>>>,
    old_rows: Seq<Game>,
    now: i64,
) -> bool {
    exists|c: int, k: int|
        0 <= c < consoles.len() && 0 <= k < listing_len(listings, c) && supported_ext(
            &consoles[c],
            (#[trigger] listing_file(listings, c, k)).name@,
        ) && !has_game(old_rows, consoles[c].id@, listing_file(listings, c, k).name@)
            && scanned_game(row, consoles[c].id@, listing_file(listings, c, k), now)
}

/// The catalog reader/scanner service rooted at the ROM storage tree.
#[derive(Clone)]
pub struct GameService {
    rom_storage_path: String,
}

impl GameService {
    pub closed spec fn spec_storage_path(&self) -> Seq<char> {
        self.rom_storage_path@
    }

    pub fn new(rom_storage_path: String) -> (s: GameService)
        ensures
            s.spec_storage_path() == rom_storage_path@,
    {
        GameService { rom_storage_path }
    }

    /// The console catalog, as handed in by the persistence layer.
    pub fn get_all_consoles<'a>(&self, consoles: &'a Vec<Console>) -> (r: &'a Vec<Console>)
        ensures
            r == consoles,
    {
        consoles
    }

    /// One console by id; absence maps to the store's not-found error.
    pub fn get_console<'a>(&self, consoles: &'a Vec<Console>, console_id: &str) -> (r: Result<
        &'a Console,
        ApiError,
    >)
        ensures
            match r {
                Ok(c) => c.id@ == console_id@ && exists|i: int|
                    0 <= i < consoles@.len() && #[trigger] consoles@[i] == *c,
                Err(e) => (forall|i: int|
                    0 <= i < consoles@.len() ==> (#[trigger] consoles@[i]).id@ != console_id@) && (
                e matches ApiError::NotFound(m) && m@ == not_found_msg()),
            },
    {
        let n = consoles.len();
        let mut i: usize = 0;
        while i < n
            invariant
                n == consoles@.len(),
                0 <= i <= n,
                forall|j: int| 0 <= j < i ==> (#[trigger] consoles@[j]).id@ != console_id@,
            decreases n - i,
        {
            if str_eq(consoles[i].id.as_str(), console_id) {
                return Ok(&consoles[i]);
            }
            i = i + 1;
        }
        Err(ApiError::NotFound(String::from_str("Resource not found")))
    }

    /// Reconciles one console's directory listing against the catalog:
    /// inserts a row for every supported file not yet cataloged, touches
    /// nothing else, and reports how many rows it added. Scanning a listing
    /// whose supported files are all cataloged adds nothing.
    pub fn scan_console(
        &self,
        games: &mut GameTable,
        console: &Console,
        files: &Vec<RomFile>,
        now: i64,
    ) -> (added: usize)
        requires
            old(games).wf(),
            old(games).spec_next_id() + files@.len() <= u128::MAX,
            old(games).rows().len() + files@.len() <= usize::MAX,
        ensures
            final(games).wf(),
            added <= files@.len(),
            final(games).rows().len() == old(games).rows().len() + added,
            final(games).spec_next_id() <= old(games).spec_next_id() + added,
            final(games).rows().take(old(games).rows().len() as int) == old(games).rows(),
            forall|k: int|
                0 <= k < files@.len() && supported_ext(console, (#[trigger] files@[k]).name@)
                    ==> has_game(final(games).rows(), console.id@, files@[k].name@),
            forall|j: int|
                #![trigger final(games).rows()[j]]
                old(games).rows().len() <= j < final(games).rows().len() ==> exists|k: int|
                    0 <= k < files@.len() && supported_ext(console, (#[trigger] files@[k]).name@)
                        && !has_game(old(games).rows(), console.id@, files@[k].name@)
                        && scanned_game(final(games).rows()[j], console.id@, files@[k], now),
            (forall|k: int|
                0 <= k < files@.len() && supported_ext(console, (#[trigger] files@[k]).name@)
                    ==> has_game(old(games).rows(), console.id@, files@[k].name@)) ==> added == 0
                && final(games).rows() == old(games).rows() && final(games).spec_next_id() == old(
                games,
            ).spec_next_id(),
    {
        let n = files.len();
        let mut added: usize = 0;
        let mut k: usize = 0;
        while k < n
            invariant
                old(games).wf(),
                games.wf(),
                n == files@.len(),
                0 <= k <= n,
                added <= k,
                games.rows().len() == old(games).rows().len() + added,
                games.spec_next_id() == old(games).spec_next_id() + added,
                old(games).spec_next_id() + files@.len() <= u128::MAX,
                old(games).rows().len() + files@.len() <= usize::MAX,
                games.rows().take(old(games).rows().len() as int) == old(games).rows(),
                forall|t: int|
                    0 <= t < k && supported_ext(console, (#[trigger] files@[t]).name@) ==> has_game(
                        games.rows(),
                        console.id@,
                        files@[t].name@,
                    ),
                forall|j: int|
                    #![trigger games.rows()[j]]
                    old(games).rows().len() <= j < games.rows().len() ==> exists|t: int|
                        0 <= t < files@.len() && supported_ext(
                            console,
                            (#[trigger] files@[t]).name@,
                        ) && !has_game(old(games).rows(), console.id@, files@[t].name@)
                            && scanned_game(games.rows()[j], console.id@, files@[t], now),
                (forall|t: int|
                    0 <= t < files@.len() && supported_ext(console, (#[trigger] files@[t]).name@)
                        ==> has_game(old(games).rows(), console.id@, files@[t].name@)) ==> added
                    == 0 && games.rows() == old(games).rows() && games.spec_next_id() == old(
                    games,
                ).spec_next_id(),
            decreases n - k,
        {
            let f = &files[k];
            if is_supported(console, f.name.as_str()) && !games.contains_game(
                console.id.as_str(),
                f.name.as_str(),
            ) {
                let title = derive_title(f.name.as_str());
                let row = Game {
                    id: games.next_id,
                    console_id: console.id.clone(),
                    title,
                    rom_filename: f.name.clone(),
                    rom_size_bytes: f.size_bytes,
                    cover_url: None,
                    description: None,
                    release_year: None,
                    developer: None,
                    genre: None,
                    created_at: now,
                    uploaded_by: None,
                };
                let ghost pre = *games;
                games.rows_vec.push(row);
                games.next_id = games.next_id + 1;
                added = added + 1;
                proof {
                    if forall|t: int|
                        0 <= t < files@.len() && supported_ext(console, (#[trigger] files@[t]).name@)
                            ==> has_game(old(games).rows(), console.id@, files@[t].name@) {
                        assert(pre.rows() == old(games).rows());
                        assert(has_game(pre.rows(), console.id@, files@[k as int].name@));
                        assert(false);
                    }
                    assert(games.rows().drop_last() =~= pre.rows());
                    assert(games.rows().take(old(games).rows().len() as int) =~= old(
                        games,
                    ).rows());
                    assert forall|a: int, b: int|
                        #![trigger games.rows()[a], games.rows()[b]]
                        0 <= a < b < games.rows().len() implies games.rows()[a].id
                        != games.rows()[b].id && !(games.rows()[a].console_id@
                        == games.rows()[b].console_id@ && games.rows()[a].rom_filename@
                        == games.rows()[b].rom_filename@) by {
                        if b == games.rows().len() - 1 {
                            assert(games.rows()[a] == pre.rows()[a]);
                        } else {
                            assert(games.rows()[a] == pre.rows()[a] && games.rows()[b]
                                == pre.rows()[b]);
                        }
                    }
                    assert(has_game(games.rows(), console.id@, files@[k as int].name@)) by {
                        assert(games.rows()[games.rows().len() - 1].console_id@ == console.id@);
                    }
                    assert forall|t: int|
                        0 <= t < k + 1 && supported_ext(
                            console,
                            (#[trigger] files@[t]).name@,
                        ) implies has_game(games.rows(), console.id@, files@[t].name@) by {
                        if t < k {
                            let i0 = choose|i0: int|
                                0 <= i0 < pre.rows().len() && (#[trigger] pre.rows()[i0]).console_id@
                                    == console.id@ && pre.rows()[i0].rom_filename@
                                    == files@[t].name@;
                            assert(games.rows()[i0] == pre.rows()[i0]);
                        }
                    }
                }
            }
            k = k + 1;
        }
        added
    }
}

/// Code-point order on character sequences.
pub open spec fn lex_le(a: Seq<char>, b: Seq<char>) -> bool
    decreases a.len(),
{
    if a.len() == 0 {
        true
    } else if b.len() == 0 {
        false
    } else if a[0] == b[0] {
        lex_le(a.skip(1), b.skip(1))
    } else {
        (a[0] as int) < (b[0] as int)
    }
}

proof fn lemma_lex_le_total(a: Seq<char>, b: Seq<char>)
    ensures
        lex_le(a, b) || lex_le(b, a),
    decreases a.len(),
{
    if a.len() > 0 && b.len() > 0 && a[0] == b[0] {
        lemma_lex_le_total(a.skip(1), b.skip(1));
    }
}

proof fn lemma_lex_le_trans(a: Seq<char>, b: Seq<char>, c: Seq<char>)
    requires
        lex_le(a, b),
        lex_le(b, c),
    ensures
        lex_le(a, c),
    decreases a.len(),
{
    if a.len() > 0 && b.len() > 0 && c.len() > 0 && a[0] == b[0] && b[0] == c[0] {
        lemma_lex_le_trans(a.skip(1), b.skip(1), c.skip(1));
    }
}

/// Compares two strings in code-point order.
fn str_le(a: &str, b: &str) -> (r: bool)
    ensures
        r == lex_le(a@, b@),
{
    let alen = a.unicode_len();
    let blen = b.unicode_len();
    assert(a@.skip(0) =~= a@);
    assert(b@.skip(0) =~= b@);
    let mut i: usize = 0;
    while i < alen && i < blen
        invariant
            alen == a@.len(),
            blen == b@.len(),
            0 <= i <= alen,
            0 <= i <= blen,
            lex_le(a@, b@) == lex_le(a@.skip(i as int), b@.skip(i as int)),
        decreases alen - i,
    {
        let ca = a.get_char(i);
        let cb = b.get_char(i);
        proof {
            assert(a@.skip(i as int)[0] == a@[i as int]);
            assert(b@.skip(i as int)[0] == b@[i as int]);
            assert(a@.skip(i as int).skip(1) =~= a@.skip(i + 1));
            assert(b@.skip(i as int).skip(1) =~= b@.skip(i + 1));
        }
        if ca != cb {
            return (ca as u32) < (cb as u32);
        }
        i = i + 1;
    }
    assert(i == alen ==> a@.skip(i as int).len() == 0);
    assert(i < alen ==> b@.skip(i as int).len() == 0 && a@.skip(i as int).len() > 0);
    i == alen
}

/// Titles never decrease along the sequence.
pub open spec fn sorted_by_title(s: Seq<Game>) -> bool {
    forall|i: int, j: int|
        #![trigger s[i], s[j]]
        0 <= i < j < s.len() ==> lex_le(s[i].title@, s[j].title@)
}

/// Sorts catalog rows by title, code-point order, keeping exactly the same
/// rows.
fn sort_by_title(rows: Vec<Game>) -> (r: Vec<Game>)
    ensures
        sorted_by_title(r@),
        r@.to_multiset() == rows@.to_multiset(),
        r@.len() == rows@.len(),
{
    let ghost all = rows@;
    let mut work = rows;
    let mut out: Vec<Game> = Vec::new();
    while work.len() > 0
        invariant
            sorted_by_title(out@),
            forall|a: int, b: int|
                0 <= a < out@.len() && 0 <= b < work@.len() ==> lex_le(
                    (#[trigger] out@[a]).title@,
                    (#[trigger] work@[b]).title@,
                ),
            out@.to_multiset().add(work@.to_multiset()) == all.to_multiset(),
            out@.len() + work@.len() == all.len(),
        decreases work.len(),
    {
        let mut m: usize = 0;
        let mut k: usize = 1;
        proof {
            lemma_lex_le_total(work@[0].title@, work@[0].title@);
        }
        while k < work.len()
            invariant
                0 <= m < work@.len(),
                m < k <= work@.len() || (k <= work@.len() && m == 0),
                forall|t: int|
                    0 <= t < k ==> lex_le(work@[m as int].title@, (#[trigger] work@[t]).title@),
            decreases work.len() - k,
        {
            if str_le(work[k].title.as_str(), work[m].title.as_str()) {
                proof {
                    assert forall|t: int| 0 <= t < k + 1 implies lex_le(
                        work@[k as int].title@,
                        (#[trigger] work@[t]).title@,
                    ) by {
                        if t < k {
                            lemma_lex_le_trans(
                                work@[k as int].title@,
                                work@[m as int].title@,
                                work@[t].title@,
                            );
                        } else {
                            lemma_lex_le_total(work@[k as int].title@, work@[k as int].title@);
                        }
                    }
                }
                m = k;
            } else {
                proof {
                    lemma_lex_le_total(work@[k as int].title@, work@[m as int].title@);
                }
            }
            k = k + 1;
        }
        let ghost pre_work = work@;
        let ghost pre_out = out@;
        let row = work.remove(m);
        out.push(row);
        proof {
            assert(out@.to_multiset() =~= pre_out.to_multiset().insert(pre_work[m as int]));
            assert(work@.to_multiset() =~= pre_work.to_multiset().remove(pre_work[m as int]));
            assert(pre_work.contains(pre_work[m as int]));
            assert(pre_work.to_multiset().count(pre_work[m as int]) > 0);
            assert(out@.to_multiset().add(work@.to_multiset()) =~= all.to_multiset());
            assert forall|a: int, b: int|
                0 <= a < out@.len() && 0 <= b < work@.len() implies lex_le(
                (#[trigger] out@[a]).title@,
                (#[trigger] work@[b]).title@,
            ) by {
                if b < m {
                    assert(work@[b] == pre_work[b]);
                } else {
                    assert(work@[b] == pre_work[b + 1]);
                }
                if a < out@.len() - 1 {
                    assert(out@[a] == pre_out[a]);
                }
            }
            assert(sorted_by_title(out@)) by {
                assert forall|a: int, b: int|
                    #![trigger out@[a], out@[b]]
                    0 <= a < b < out@.len() implies lex_le(out@[a].title@, out@[b].title@) by {
                    if b < out@.len() - 1 {
                        assert(out@[a] == pre_out[a] && out@[b] == pre_out[b]);
                    } else {
                        assert(out@[a] == pre_out[a] && out@[b] == pre_work[m as int]);
                    }
                }
            }
        }
    }
    proof {
        assert(work@ =~= Seq::<Game>::empty());
        assert(work@.to_multiset().len() == 0);
        assert(work@.to_multiset() =~= Multiset::<Game>::empty());
        assert(out@.to_multiset() =~= all.to_multiset());
    }
    out
}

/// The catalog rows matching an optional console filter, in table order.
pub open spec fn keep_console(rows: Seq<Game>, console_id: Option<Seq<char>>) -> Seq<Game>
    decreases rows.len(),
{
    if rows.len() == 0 {
        rows
    } else {
        let rest = keep_console(rows.drop_last(), console_id);
        match console_id {
            Some(cid) => if rows.last().console_id@ == cid {
                rest.push(rows.last())
            } else {
                rest
            },
            None => rest.push(rows.last()),
        }
    }
}

impl GameService {
    /// Scans every console's directory listing in turn; a missing listing
    /// (`None`) is skipped with a warning at the boundary, not an error.
    /// Afterwards every supported listed file is cataloged; every new row
    /// was derived from such a file that was not cataloged before; existing
    /// rows are never modified or removed, whatever the files now look like;
    /// the count is exactly the number of rows added, and a scan over a tree
    /// whose supported files are all cataloged adds nothing.
    pub fn scan_roms(
        &self,
        games: &mut GameTable,
        consoles: &Vec<Console>,
        listings: &Vec<Option<Vec<RomFile>>>,
        now: i64,
    ) -> (r: Result<usize, ApiError>)
        requires
            old(games).wf(),
            listings@.len() == consoles@.len(),
            old(games).spec_next_id() + files_after(listings@, 0) <= u128::MAX,
            old(games).rows().len() + files_after(listings@, 0) <= usize::MAX,
        ensures
            final(games).wf(),
            r matches Ok(total) && {
                &&& final(games).rows().len() == old(games).rows().len() + total
                &&& final(games).rows().take(old(games).rows().len() as int) == old(games).rows()
                &&& listings_cataloged(consoles@, listings@, final(games).rows())
                &&& forall|j: int|
                    old(games).rows().len() <= j < final(games).rows().len() ==> scan_inserts(
                        #[trigger] final(games).rows()[j],
                        consoles@,
                        listings@,
                        old(games).rows(),
                        now,
                    )
                &&& (listings_cataloged(consoles@, listings@, old(games).rows()) ==> total == 0
                    && final(games).rows() == old(games).rows() && final(games).spec_next_id()
                    == old(games).spec_next_id())
            },
    {
        let n = consoles.len();
        let mut total: usize = 0;
        let mut c: usize = 0;
        while c < n
            invariant
                games.wf(),
                n == consoles@.len() == listings@.len(),
                0 <= c <= n,
                games.rows().len() == old(games).rows().len() + total,
                games.rows().take(old(games).rows().len() as int) == old(games).rows(),
                games.spec_next_id() + files_after(listings@, c as int) <= u128::MAX,
                games.rows().len() + files_after(listings@, c as int) <= usize::MAX,
                forall|c2: int, k: int|
                    0 <= c2 < c && 0 <= k < listing_len(listings@, c2) && supported_ext(
                        &consoles@[c2],
                        (#[trigger] listing_file(listings@, c2, k)).name@,
                    ) ==> has_game(games.rows(), consoles@[c2].id@, listing_file(
                        listings@,
                        c2,
                        k,
                    ).name@),
                forall|j: int|
                    old(games).rows().len() <= j < games.rows().len() ==> scan_inserts(
                        #[trigger] games.rows()[j],
                        consoles@,
                        listings@,
                        old(games).rows(),
                        now,
                    ),
                listings_cataloged(consoles@, listings@, old(games).rows()) ==> total == 0
                    && games.rows() == old(games).rows() && games.spec_next_id() == old(
                    games,
                ).spec_next_id(),
            decreases n - c,
        {
            let ghost pre = *games;
            match &listings[c] {
                Some(files) => {
                    assert(files_after(listings@, c as int) == files@.len() + files_after(
                        listings@,
                        c as int + 1,
                    ));
                    assert(listing_len(listings@, c as int) == files@.len());
                    assert(forall|k: int|
                        0 <= k < files@.len() ==> #[trigger] listing_file(listings@, c as int, k)
                            == files@[k]);
                    proof {
                        if listings_cataloged(consoles@, listings@, old(games).rows()) {
                            assert forall|k: int|
                                0 <= k < files@.len() && supported_ext(
                                    &consoles@[c as int],
                                    (#[trigger] files@[k]).name@,
                                ) implies has_game(
                                pre.rows(),
                                consoles@[c as int].id@,
                                files@[k].name@,
                            ) by {
                                assert(listing_file(listings@, c as int, k) == files@[k]);
                            }
                        }
                    }
                    let added = self.scan_console(games, &consoles[c], files, now);
                    total = total + added;
                    proof {
                        assert(games.rows().take(old(games).rows().len() as int) =~= old(
                            games,
                        ).rows()) by {
                            assert(games.rows().take(pre.rows().len() as int).take(
                                old(games).rows().len() as int,
                            ) =~= games.rows().take(old(games).rows().len() as int));
                        }
                        assert forall|i: int| 0 <= i < pre.rows().len() implies games.rows()[i]
                            == #[trigger] pre.rows()[i] by {
                            assert(games.rows().take(pre.rows().len() as int)[i]
                                == games.rows()[i]);
                        }
                        assert forall|c2: int, k: int|
                            0 <= c2 < c + 1 && 0 <= k < listing_len(listings@, c2)
                                && supported_ext(
                                &consoles@[c2],
                                (#[trigger] listing_file(listings@, c2, k)).name@,
                            ) implies has_game(games.rows(), consoles@[c2].id@, listing_file(
                            listings@,
                            c2,
                            k,
                        ).name@) by {
                            if c2 < c {
                                let name = listing_file(listings@, c2, k).name@;
                                let i = choose|i: int|
                                    0 <= i < pre.rows().len() && (#[trigger] pre.rows()[i]).console_id@
                                        == consoles@[c2].id@ && pre.rows()[i].rom_filename@
                                        == name;
                                assert(games.rows()[i] == pre.rows()[i]);
                            } else {
                                assert(listing_file(listings@, c2, k) == files@[k]);
                            }
                        }
                        assert forall|j: int|
                            old(games).rows().len() <= j < games.rows().len() implies scan_inserts(
                            #[trigger] games.rows()[j],
                            consoles@,
                            listings@,
                            old(games).rows(),
                            now,
                        ) by {
                            if j < pre.rows().len() {
                                assert(games.rows()[j] == pre.rows()[j]);
                            } else {
                                let k = choose|k: int|
                                    0 <= k < files@.len() && supported_ext(
                                        &consoles@[c as int],
                                        (#[trigger] files@[k]).name@,
                                    ) && !has_game(
                                        pre.rows(),
                                        consoles@[c as int].id@,
                                        files@[k].name@,
                                    ) && scanned_game(
                                        games.rows()[j],
                                        consoles@[c as int].id@,
                                        files@[k],
                                        now,
                                    );
                                assert(!has_game(
                                    old(games).rows(),
                                    consoles@[c as int].id@,
                                    files@[k].name@,
                                )) by {
                                    if has_game(
                                        old(games).rows(),
                                        consoles@[c as int].id@,
                                        files@[k].name@,
                                    ) {
                                        let i = choose|i: int|
                                            0 <= i < old(games).rows().len() && (#[trigger] old(
                                                games,
                                            ).rows()[i]).console_id@ == consoles@[c as int].id@
                                                && old(games).rows()[i].rom_filename@
                                                == files@[k].name@;
                                        assert(pre.rows()[i] == old(games).rows()[i]) by {
                                            assert(pre.rows().take(
                                                old(games).rows().len() as int,
                                            )[i] == pre.rows()[i]);
                                        }
                                    }
                                }
                                assert(listing_file(listings@, c as int, k) == files@[k]);
                                assert(scan_inserts(
                                    games.rows()[j],
                                    consoles@,
                                    listings@,
                                    old(games).rows(),
                                    now,
                                ));
                            }
                        }
                    }
                },
                None => {
                    assert(files_after(listings@, c as int) == files_after(
                        listings@,
                        c as int + 1,
                    ));
                    assert(listing_len(listings@, c as int) == 0);
                },
            }
            c = c + 1;
        }
        Ok(total)
    }

    /// One catalog page, ordered by title (code-point order), and the total
    /// number of matching rows.
    pub fn get_games(
        &self,
        games: &GameTable,
        console_id: Option<&str>,
        limit: i64,
        offset: i64,
    ) -> (r: Result<(Vec<Game>, i64), ApiError>)
        requires
            0 <= limit,
            0 <= offset,
            games.rows().len() <= i64::MAX,
        ensures
            r matches Ok(page) && {
                let m = keep_console(
                    games.rows(),
                    match console_id {
                        Some(c) => Some(c@),
                        None => None,
                    },
                );
                let off = if offset <= m.len() {
                    offset as int
                } else {
                    m.len() as int
                };
                let end = if off + limit <= m.len() {
                    off + limit
                } else {
                    m.len() as int
                };
                &&& page.1 == m.len()
                &&& sorted_by_title(page.0@)
                &&& exists|sorted: Seq<Game>|
                    sorted_by_title(sorted) && #[trigger] sorted.to_multiset() == m.to_multiset()
                        && page.0@ == sorted.subrange(off, end)
            },
    {
        let ghost cid = match console_id {
            Some(c) => Some(c@),
            None => None,
        };
        let n = games.rows_vec.len();
        let mut matched: Vec<Game> = Vec::new();
        let mut i: usize = 0;
        while i < n
            invariant
                n == games.rows().len(),
                0 <= i <= n,
                matched@ == keep_console(games.rows().take(i as int), cid),
                cid == (match console_id {
                    Some(c) => Some(c@),
                    None => None,
                }),
            decreases n - i,
        {
            proof {
                assert(games.rows().take(i + 1).drop_last() =~= games.rows().take(i as int));
                assert(games.rows().take(i + 1).last() == games.rows()[i as int]);
            }
            let keep = match console_id {
                Some(c) => str_eq(games.rows_vec[i].console_id.as_str(), c),
                None => true,
            };
            if keep {
                matched.push(games.rows_vec[i].duplicate());
            }
            i = i + 1;
        }
        assert(games.rows().take(n as int) =~= games.rows());
        proof {
            lemma_keep_console_len(games.rows(), cid);
        }
        let ghost matched_view = matched@;
        let sorted = sort_by_title(matched);
        let ghost sorted_view = sorted@;
        let m = sorted.len();
        let off: usize = if offset <= m as i64 {
            offset as usize
        } else {
            m
        };
        let end: usize = if (m - off) as i64 >= limit {
            off + (limit as usize)
        } else {
            m
        };
        let mut page: Vec<Game> = Vec::new();
        let mut j: usize = off;
        while j < end
            invariant
                off <= j <= end <= m == sorted@.len(),
                sorted@ == sorted_view,
                page@ == sorted@.subrange(off as int, j as int),
            decreases end - j,
        {
            page.push(sorted[j].duplicate());
            assert(page@ =~= sorted@.subrange(off as int, j + 1));
            j = j + 1;
        }
        assert(page@ =~= sorted@.subrange(off as int, end as int));
        proof {
            assert(sorted_by_title(page@)) by {
                assert forall|a: int, b: int|
                    #![trigger page@[a], page@[b]]
                    0 <= a < b < page@.len() implies lex_le(page@[a].title@, page@[b].title@) by {
                    assert(page@[a] == sorted@[off + a] && page@[b] == sorted@[off + b]);
                }
            }
            let mspec = keep_console(
                games.rows(),
                match console_id {
                    Some(c) => Some(c@),
                    None => None,
                },
            );
            assert(matched_view == mspec);
            assert(sorted_view.to_multiset() == mspec.to_multiset());
            assert(sorted_by_title(sorted_view) && sorted_view.to_multiset() == mspec.to_multiset()
                && page@ == sorted_view.subrange(off as int, end as int));
        }
        Ok((page, m as i64))
    }

    /// One game by id; absence maps to the store's not-found error.
    pub fn get_game<'a>(&self, games: &'a GameTable, game_id: u128) -> (r: Result<
        &'a Game,
        ApiError,
    >)
        ensures
            match r {
                Ok(g) => g.id == game_id && exists|i: int|
                    0 <= i < games.rows().len() && #[trigger] games.rows()[i] == *g,
                Err(e) => !games.has_id(game_id) && (e matches ApiError::NotFound(m) && m@
                    == not_found_msg()),
            },
    {
        match games.find_by_id(game_id) {
            Some(g) => Ok(g),
            None => Err(ApiError::NotFound(String::from_str("Resource not found"))),
        }
    }

    /// The on-disk path of a console's ROM file.
    pub fn get_rom_path(&self, console_id: &str, filename: &str) -> (r: String)
        ensures
            r@ == self.spec_storage_path() + "/"@ + console_id@ + "/"@ + filename@,
    {
        let mut s = self.rom_storage_path.clone();
        s.append("/");
        s.append(console_id);
        s.append("/");
        s.append(filename);
        assert(s@ =~= self.spec_storage_path() + "/"@ + console_id@ + "/"@ + filename@);
        s
    }
}

proof fn lemma_keep_console_len(rows: Seq<Game>, cid: Option<Seq<char>>)
    ensures
        keep_console(rows, cid).len() <= rows.len(),
    decreases rows.len(),
{
    if rows.len() > 0 {
        lemma_keep_console_len(rows.drop_last(), cid);
    }
}

} // verus!
