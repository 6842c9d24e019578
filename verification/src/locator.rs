//! Locators: addresses of datasets at rest in some backend, with a
//! lossless textual form and static capability negotiation between
//! backend kinds.
//!
//! An address is `<scheme>:<resource-path>`. A warehouse table lives at
//! `bigquery:<project>:<dataset>.<table>`; an object-storage directory at
//! `gs://<bucket>/<path>` where the path, if nonempty, ends in a slash.
//! Parsing and rendering invert each other: rendering what was parsed
//! gives the input back, and a string that no well-formed locator renders
//! to is rejected.

use vstd::prelude::*;
use vstd::string::StrSliceExecFns;
use vstd::string::StringExecFns;

use crate::error::Error;

verus! {

/// The index of the first occurrence of `c` at or after `from`, or -1.
pub open spec fn find_char(s: Seq<char>, c: char, from: int) -> int
    decreases s.len() - from,
{
    if from < 0 || from >= s.len() {
        -1
    } else if s[from] == c {
        from
    } else {
        find_char(s, c, from + 1)
    }
}

proof fn lemma_find_char_props(s: Seq<char>, c: char, from: int)
    requires
        0 <= from,
    ensures
        find_char(s, c, from) == -1 ==> forall|i: int| from <= i < s.len() ==> s[i] != c,
        find_char(s, c, from) != -1 ==> {
            let j = find_char(s, c, from);
            &&& from <= j < s.len()
            &&& s[j] == c
            &&& forall|i: int| from <= i < j ==> s[i] != c
        },
    decreases s.len() - from,
{
    if from < s.len() && s[from] != c {
        lemma_find_char_props(s, c, from + 1);
    }
}

proof fn lemma_find_char_concat(s: Seq<char>, c: char, a: Seq<char>, pos: int, from: int)
    requires
        0 <= from <= pos + a.len(),
        0 <= pos,
        pos + a.len() < s.len(),
        forall|i: int| 0 <= i < a.len() ==> a[i] != c,
        forall|i: int| 0 <= i < a.len() ==> s[pos + i] == a[i],
        forall|i: int| from <= i < pos ==> s[i] != c,
        s[pos + a.len()] == c,
    ensures
        find_char(s, c, from) == pos + a.len(),
    decreases s.len() - from,
{
    if from < pos + a.len() {
        if from >= pos {
            assert(s[from] == a[from - pos]);
        }
        assert(s[from] != c);
        lemma_find_char_concat(s, c, a, pos, from + 1);
    }
}

/// The scheme prefix of a warehouse address.
pub open spec fn bq_scheme() -> Seq<char> {
    seq!['b', 'i', 'g', 'q', 'u', 'e', 'r', 'y', ':']
}

/// The scheme prefix of an object-storage address.
pub open spec fn gs_scheme() -> Seq<char> {
    seq!['g', 's', ':', '/', '/']
}

/// A fully qualified warehouse table name: project, dataset and table.
pub struct TableName {
    /// The project that owns the dataset.
    pub project: String,
    /// The dataset that holds the table.
    pub dataset: String,
    /// The table itself.
    pub table: String,
}

impl TableName {
    /// A well-formed table name: all three parts nonempty, no colon in
    /// the project and no dot in the dataset, so that the textual form
    /// splits back unambiguously at its first colon and first dot.
    pub open spec fn wf(&self) -> bool {
        &&& self.project@.len() > 0
        &&& forall|i: int| 0 <= i < self.project@.len() ==> self.project@[i] != ':'
        &&& self.dataset@.len() > 0
        &&& forall|i: int| 0 <= i < self.dataset@.len() ==> self.dataset@[i] != '.'
        &&& self.table@.len() > 0
    }

    /// The textual form: `<project>:<dataset>.<table>`.
    pub open spec fn render_spec(&self) -> Seq<char> {
        self.project@ + seq![':'] + self.dataset@ + seq!['.'] + self.table@
    }
}

/// A locator for a warehouse table: `bigquery:<project>:<dataset>.<table>`.
pub struct BigQueryLocator {
    /// The table pointed to by this locator.
    pub table_name: TableName,
}

impl BigQueryLocator {
    /// A well-formed locator: its table name is well-formed.
    pub open spec fn wf(&self) -> bool {
        self.table_name.wf()
    }

    /// The locator's stable textual form.
    pub open spec fn render_spec(&self) -> Seq<char> {
        bq_scheme() + self.table_name.render_spec()
    }
}

/// A locator for an object-storage directory: `gs://<bucket>/<path>`.
pub struct GsLocator {
    /// The bucket.
    pub bucket: String,
    /// The path under the bucket: empty, or ending in a slash.
    pub path: String,
}

impl GsLocator {
    /// A well-formed locator: a nonempty bucket without slashes, and a
    /// path that is empty or ends in a slash (it addresses a directory).
    pub open spec fn wf(&self) -> bool {
        &&& self.bucket@.len() > 0
        &&& forall|i: int| 0 <= i < self.bucket@.len() ==> self.bucket@[i] != '/'
        &&& (self.path@.len() == 0 || self.path@[self.path@.len() - 1] == '/')
    }

    /// The locator's stable textual form.
    pub open spec fn render_spec(&self) -> Seq<char> {
        gs_scheme() + self.bucket@ + seq!['/'] + self.path@
    }
}

/// The backend kinds locators can point into.
pub enum LocatorKind {
    /// The warehouse backend.
    BigQuery,
    /// The object-storage backend.
    Gs,
}

/// A dataset address in one of the known backends.
pub enum Locator {
    /// A warehouse table.
    BigQuery(BigQueryLocator),
    /// An object-storage directory.
    Gs(GsLocator),
}

impl Locator {
    /// A well-formed locator of either kind.
    pub open spec fn wf(&self) -> bool {
        match self {
            Locator::BigQuery(l) => l.wf(),
            Locator::Gs(l) => l.wf(),
        }
    }

    /// The locator's stable textual form.
    pub open spec fn render_spec(&self) -> Seq<char> {
        match self {
            Locator::BigQuery(l) => l.render_spec(),
            Locator::Gs(l) => l.render_spec(),
        }
    }

    /// The locator's backend kind.
    pub open spec fn kind_spec(&self) -> LocatorKind {
        match self {
            Locator::BigQuery(_) => LocatorKind::BigQuery,
            Locator::Gs(_) => LocatorKind::Gs,
        }
    }

    /// The locator's backend kind.
    pub fn kind(&self) -> (r: LocatorKind)
        ensures
            r == self.kind_spec(),
    {
        match self {
            Locator::BigQuery(_) => LocatorKind::BigQuery,
            Locator::Gs(_) => LocatorKind::Gs,
        }
    }
}

/// Whether the destination kind can consume data at rest in the source
/// kind directly, bypassing the generic streaming pipeline. The answer
/// depends on the two kinds alone — never on instance state — so the
/// negotiation table is centrally auditable: the warehouse bulk-loads
/// natively from object storage, and extracts natively into it.
pub open spec fn supports_direct_transfer(src: LocatorKind, dst: LocatorKind) -> bool {
    match (src, dst) {
        (LocatorKind::Gs, LocatorKind::BigQuery) => true,
        (LocatorKind::BigQuery, LocatorKind::Gs) => true,
        _ => false,
    }
}

/// Capability determinism: the direct-transfer capability is a function
/// of the pair of locator kinds; any two locators of the same kinds get
/// the same answer, whatever their addresses.
pub proof fn lemma_capability_determinism(a: Locator, b: Locator, c: Locator, d: Locator)
    requires
        a.kind_spec() == c.kind_spec(),
        b.kind_spec() == d.kind_spec(),
    ensures
        supports_direct_transfer(a.kind_spec(), b.kind_spec()) == supports_direct_transfer(
            c.kind_spec(),
            d.kind_spec(),
        ),
{
}

impl BigQueryLocator {
    /// Parse a warehouse locator from its textual form. Succeeds exactly
    /// on the addresses that well-formed warehouse locators render to.
    pub fn from_str(s: &str) -> (r: Result<BigQueryLocator, Error>)
        ensures
            match r {
                Ok(l) => l.wf() && Locator::BigQuery(l).render_spec() == s@,
                Err(e) => {
                    &&& e matches Error::AddressParse { address } && address@ == s@
                    &&& forall|l: BigQueryLocator| l.wf()
                        ==> #[trigger] Locator::BigQuery(l).render_spec() != s@
                },
            },
    {
        match Locator::parse(s) {
            Ok(Locator::BigQuery(l)) => Ok(l),
            Ok(Locator::Gs(g)) => {
                proof {
                    assert forall|l: BigQueryLocator| l.wf() implies #[trigger] Locator::BigQuery(
                        l,
                    ).render_spec() != s@ by {
                        if Locator::BigQuery(l).render_spec() == s@ {
                            lemma_render_injective(Locator::BigQuery(l), Locator::Gs(g));
                        }
                    }
                }
                Err(Error::AddressParse { address: s.to_owned() })
            },
            Err(e) => Err(e),
        }
    }

    /// Whether this locator, as a destination, can consume the source
    /// directly: exactly when the source is an object-storage locator.
    pub fn supports_write_remote_data(&self, source: &Locator) -> (r: bool)
        ensures
            r == supports_direct_transfer(source.kind_spec(), LocatorKind::BigQuery),
            r == (source is Gs),
    {
        match source {
            Locator::Gs(_) => true,
            Locator::BigQuery(_) => false,
        }
    }
}

/// Whether `s` begins with the characters of `prefix`.
fn has_prefix(s: &str, n: usize, prefix: &str, m: usize) -> (r: bool)
    requires
        n == s@.len(),
        m == prefix@.len(),
    ensures
        r == (s@.len() >= prefix@.len() && s@.subrange(0, prefix@.len() as int) == prefix@),
{
    if n < m {
        return false;
    }
    let mut i: usize = 0;
    while i < m
        invariant
            n == s@.len(),
            m == prefix@.len(),
            m <= n,
            i <= m,
            forall|j: int| 0 <= j < i ==> s@[j] == prefix@[j],
        decreases m - i,
    {
        if s.get_char(i) != prefix.get_char(i) {
            proof {
                assert(s@.subrange(0, m as int)[i as int] == s@[i as int]);
            }
            return false;
        }
        i = i + 1;
    }
    proof {
        assert(s@.subrange(0, m as int) =~= prefix@);
    }
    true
}

/// Find the first occurrence of `c` at or after `from`.
fn find_char_from(s: &str, n: usize, c: char, from: usize) -> (r: Option<usize>)
    requires
        n == s@.len(),
        from <= n,
    ensures
        match r {
            Some(j) => find_char(s@, c, from as int) == j && from <= j < s@.len() && s@[j as int]
                == c,
            None => find_char(s@, c, from as int) == -1,
        },
{
    let mut k: usize = from;
    while k < n
        invariant
            n == s@.len(),
            from <= k <= n,
            find_char(s@, c, from as int) == find_char(s@, c, k as int),
        decreases n - k,
    {
        if s.get_char(k) == c {
            return Some(k);
        }
        k = k + 1;
    }
    None
}

impl Locator {
    /// Parse a locator from its textual form. Succeeds exactly on the
    /// addresses that well-formed locators render to, and returns the
    /// locator whose rendering is the input itself.
    pub fn parse(s: &str) -> (r: Result<Locator, Error>)
        ensures
            match r {
                Ok(l) => l.wf() && l.render_spec() == s@,
                Err(e) => {
                    &&& e matches Error::AddressParse { address } && address@ == s@
                    &&& forall|l: Locator| l.wf() ==> #[trigger] l.render_spec() != s@
                },
            },
    {
        let n = s.unicode_len();
        proof {
            reveal_strlit("bigquery:");
            reveal_strlit("gs://");
            assert("bigquery:"@ =~= bq_scheme());
            assert("gs://"@ =~= gs_scheme());
        }
        if has_prefix(s, n, "bigquery:", 9) {
            match Self::parse_bigquery(s, n) {
                Ok(l) => Ok(Locator::BigQuery(l)),
                Err(e) => {
                    proof {
                        assert forall|l: Locator| l.wf() implies #[trigger] l.render_spec()
                            != s@ by {
                            if l is Gs {
                                assert(l.render_spec()[2] == ':');
                                assert(s@[2] == 'g');
                            }
                        }
                    }
                    Err(e)
                },
            }
        } else if has_prefix(s, n, "gs://", 5) {
            match Self::parse_gs(s, n) {
                Ok(l) => Ok(Locator::Gs(l)),
                Err(e) => {
                    proof {
                        assert forall|l: Locator| l.wf() implies #[trigger] l.render_spec()
                            != s@ by {
                            if l is BigQuery {
                                assert(l.render_spec()[2] == 'g');
                                assert(s@[2] == ':');
                            }
                        }
                    }
                    Err(e)
                },
            }
        } else {
            proof {
                assert forall|l: Locator| l.wf() implies #[trigger] l.render_spec() != s@ by {
                    match l {
                        Locator::BigQuery(b) => {
                            assert(l.render_spec().subrange(0, 9) =~= bq_scheme());
                        },
                        Locator::Gs(g) => {
                            assert(l.render_spec().subrange(0, 5) =~= gs_scheme());
                        },
                    }
                }
            }
            Err(Error::AddressParse { address: s.to_owned() })
        }
    }

    fn parse_bigquery(s: &str, n: usize) -> (r: Result<BigQueryLocator, Error>)
        requires
            n == s@.len(),
            s@.len() >= 9,
            s@.subrange(0, 9) == bq_scheme(),
        ensures
            match r {
                Ok(l) => l.wf() && Locator::BigQuery(l).render_spec() == s@,
                Err(e) => {
                    &&& e matches Error::AddressParse { address } && address@ == s@
                    &&& forall|l: BigQueryLocator| l.wf()
                        ==> #[trigger] Locator::BigQuery(l).render_spec() != s@
                },
            },
    {
        proof {
            assert forall|i: int| 0 <= i < 9 implies s@[i] == bq_scheme()[i] by {
                assert(s@.subrange(0, 9)[i] == s@[i]);
            }
            assert forall|l: BigQueryLocator|
                l.wf() && #[trigger] Locator::BigQuery(l).render_spec() == s@ implies ({
                let p = l.table_name.project@;
                &&& find_char(s@, ':', 9) == 9 + p.len() as int
                &&& forall|i: int| 0 <= i < p.len() ==> s@[9 + i] == p[i]
            }) by {
                let p = l.table_name.project@;
                assert forall|i: int| 0 <= i < p.len() implies s@[9 + i] == p[i] by {
                    assert(l.render_spec()[9 + i] == p[i]);
                }
                assert(s@[9 + p.len() as int] == ':');
                lemma_find_char_concat(s@, ':', p, 9, 9);
            }
        }
        let colon = match find_char_from(s, n, ':', 9) {
            None => {
                proof {
                    lemma_find_char_props(s@, ':', 9);
                }
                return Err(Error::AddressParse { address: s.to_owned() });
            },
            Some(j) => j,
        };
        proof {
            lemma_find_char_props(s@, ':', 9);
        }
        if colon == 9 {
            // An empty project: no well-formed name renders so.
            return Err(Error::AddressParse { address: s.to_owned() });
        }
        proof {
            assert forall|l: BigQueryLocator|
                l.wf() && #[trigger] Locator::BigQuery(l).render_spec() == s@ implies ({
                let d = l.table_name.dataset@;
                let c = colon as int;
                &&& find_char(s@, '.', c + 1) == c + 1 + d.len() as int
                &&& forall|i: int| 0 <= i < d.len() ==> s@[c + 1 + i] == d[i]
            }) by {
                let p = l.table_name.project@;
                let d = l.table_name.dataset@;
                let c = colon as int;
                assert(c == 9 + p.len() as int);
                assert forall|i: int| 0 <= i < d.len() implies s@[c + 1 + i] == d[i] by {
                    assert(l.render_spec()[10 + p.len() + i] == d[i]);
                }
                assert(s@[c + 1 + d.len() as int] == '.');
                lemma_find_char_concat(s@, '.', d, c + 1, c + 1);
            }
        }
        let dot = match find_char_from(s, n, '.', colon + 1) {
            None => {
                proof {
                    lemma_find_char_props(s@, '.', colon + 1);
                }
                return Err(Error::AddressParse { address: s.to_owned() });
            },
            Some(j) => j,
        };
        proof {
            lemma_find_char_props(s@, '.', colon + 1);
        }
        if dot == colon + 1 || dot + 1 == n {
            // An empty dataset or an empty table.
            return Err(Error::AddressParse { address: s.to_owned() });
        }
        let project = s.substring_char(9, colon).to_owned();
        let dataset = s.substring_char(colon + 1, dot).to_owned();
        let table = s.substring_char(dot + 1, n).to_owned();
        let l = BigQueryLocator {
            table_name: TableName { project, dataset, table },
        };
        proof {
            assert(Locator::BigQuery(l).render_spec() =~= s@);
        }
        Ok(l)
    }

    fn parse_gs(s: &str, n: usize) -> (r: Result<GsLocator, Error>)
        requires
            n == s@.len(),
            s@.len() >= 5,
            s@.subrange(0, 5) == gs_scheme(),
        ensures
            match r {
                Ok(l) => l.wf() && Locator::Gs(l).render_spec() == s@,
                Err(e) => {
                    &&& e matches Error::AddressParse { address } && address@ == s@
                    &&& forall|l: GsLocator| l.wf() ==> #[trigger] Locator::Gs(l).render_spec()
                        != s@
                },
            },
    {
        proof {
            assert forall|i: int| 0 <= i < 5 implies s@[i] == gs_scheme()[i] by {
                assert(s@.subrange(0, 5)[i] == s@[i]);
            }
            assert forall|l: GsLocator|
                l.wf() && #[trigger] Locator::Gs(l).render_spec() == s@ implies ({
                let b = l.bucket@;
                &&& find_char(s@, '/', 5) == 5 + b.len() as int
                &&& forall|i: int| 0 <= i < b.len() ==> s@[5 + i] == b[i]
            }) by {
                let b = l.bucket@;
                assert forall|i: int| 0 <= i < b.len() implies s@[5 + i] == b[i] by {
                    assert(l.render_spec()[5 + i] == b[i]);
                }
                assert(s@[5 + b.len() as int] == '/');
                lemma_find_char_concat(s@, '/', b, 5, 5);
            }
        }
        let slash = match find_char_from(s, n, '/', 5) {
            None => {
                proof {
                    lemma_find_char_props(s@, '/', 5);
                }
                return Err(Error::AddressParse { address: s.to_owned() });
            },
            Some(j) => j,
        };
        proof {
            lemma_find_char_props(s@, '/', 5);
        }
        if slash == 5 {
            // An empty bucket.
            return Err(Error::AddressParse { address: s.to_owned() });
        }
        if slash + 1 < n && s.get_char(n - 1) != '/' {
            // A nonempty path must address a directory.
            proof {
                assert forall|l: GsLocator| l.wf() implies #[trigger] Locator::Gs(l).render_spec()
                    != s@ by {
                    if Locator::Gs(l).render_spec() == s@ {
                        let pa = l.path@;
                        assert(pa.len() as int == n - slash - 1);
                        assert(l.render_spec()[n - 1] == pa[pa.len() - 1]);
                    }
                }
            }
            return Err(Error::AddressParse { address: s.to_owned() });
        }
        let bucket = s.substring_char(5, slash).to_owned();
        let path = s.substring_char(slash + 1, n).to_owned();
        let l = GsLocator { bucket, path };
        proof {
            assert(Locator::Gs(l).render_spec() =~= s@);
            if slash + 1 < n {
                assert(l.path@[l.path@.len() - 1] == s@[n - 1]);
            }
        }
        Ok(l)
    }

    /// Render the locator's stable textual form; parsing it gives the
    /// locator back.
    pub fn render(&self) -> (r: String)
        ensures
            r@ == self.render_spec(),
    {
        proof {
            reveal_strlit("bigquery:");
            reveal_strlit("gs://");
            reveal_strlit(":");
            reveal_strlit(".");
            reveal_strlit("/");
            assert("bigquery:"@ =~= bq_scheme());
            assert("gs://"@ =~= gs_scheme());
            assert(":"@ =~= seq![':']);
            assert("."@ =~= seq!['.']);
            assert("/"@ =~= seq!['/']);
        }
        match self {
            Locator::BigQuery(l) => {
                let mut out = String::new();
                out.append("bigquery:");
                out.append(l.table_name.project.as_str());
                out.append(":");
                out.append(l.table_name.dataset.as_str());
                out.append(".");
                out.append(l.table_name.table.as_str());
                proof {
                    assert(out@ =~= self.render_spec());
                }
                out
            },
            Locator::Gs(l) => {
                let mut out = String::new();
                out.append("gs://");
                out.append(l.bucket.as_str());
                out.append("/");
                out.append(l.path.as_str());
                proof {
                    assert(out@ =~= self.render_spec());
                }
                out
            },
        }
    }
}

/// Holds when two locators carry the same address: the same backend kind
/// and, character for character, the same components.
pub open spec fn same_address(a: Locator, b: Locator) -> bool {
    match (a, b) {
        (Locator::BigQuery(x), Locator::BigQuery(y)) => {
            &&& x.table_name.project@ == y.table_name.project@
            &&& x.table_name.dataset@ == y.table_name.dataset@
            &&& x.table_name.table@ == y.table_name.table@
        },
        (Locator::Gs(x), Locator::Gs(y)) => {
            &&& x.bucket@ == y.bucket@
            &&& x.path@ == y.path@
        },
        _ => false,
    }
}

/// Rendering is injective on well-formed locators: two that render to the
/// same string carry the same address. With [`Locator::parse`]'s
/// contract, this makes parsing invert rendering: parsing a well-formed
/// locator's textual form gives back a locator with exactly its address.
pub proof fn lemma_render_injective(a: Locator, b: Locator)
    requires
        a.wf(),
        b.wf(),
        a.render_spec() == b.render_spec(),
    ensures
        same_address(a, b),
{
    match (a, b) {
        (Locator::BigQuery(x), Locator::BigQuery(y)) => {
            let s = a.render_spec();
            let px = x.table_name.project@;
            let py = y.table_name.project@;
            assert forall|i: int| 0 <= i < px.len() implies s[9 + i] == px[i] by {
                assert(a.render_spec()[9 + i] == px[i]);
            }
            assert(s[9 + px.len() as int] == ':');
            lemma_find_char_concat(s, ':', px, 9, 9);
            assert forall|i: int| 0 <= i < py.len() implies s[9 + i] == py[i] by {
                assert(b.render_spec()[9 + i] == py[i]);
            }
            assert(s[9 + py.len() as int] == ':');
            lemma_find_char_concat(s, ':', py, 9, 9);
            assert(px.len() == py.len());
            assert(px =~= py);
            let c = 9 + px.len() as int;
            let dx = x.table_name.dataset@;
            let dy = y.table_name.dataset@;
            assert forall|i: int| 0 <= i < dx.len() implies s[c + 1 + i] == dx[i] by {
                assert(a.render_spec()[c + 1 + i] == dx[i]);
            }
            assert(s[c + 1 + dx.len() as int] == '.');
            lemma_find_char_concat(s, '.', dx, c + 1, c + 1);
            assert forall|i: int| 0 <= i < dy.len() implies s[c + 1 + i] == dy[i] by {
                assert(b.render_spec()[c + 1 + i] == dy[i]);
            }
            assert(s[c + 1 + dy.len() as int] == '.');
            lemma_find_char_concat(s, '.', dy, c + 1, c + 1);
            assert(dx.len() == dy.len());
            assert(dx =~= dy);
            let tx = x.table_name.table@;
            let ty = y.table_name.table@;
            assert(tx.len() == ty.len());
            assert forall|i: int| 0 <= i < tx.len() implies tx[i] == ty[i] by {
                assert(a.render_spec()[c + 1 + dx.len() as int + 1 + i] == tx[i]);
                assert(b.render_spec()[c + 1 + dy.len() as int + 1 + i] == ty[i]);
            }
            assert(tx =~= ty);
        },
        (Locator::Gs(x), Locator::Gs(y)) => {
            let s = a.render_spec();
            let bx = x.bucket@;
            let by = y.bucket@;
            assert forall|i: int| 0 <= i < bx.len() implies s[5 + i] == bx[i] by {
                assert(a.render_spec()[5 + i] == bx[i]);
            }
            assert(s[5 + bx.len() as int] == '/');
            lemma_find_char_concat(s, '/', bx, 5, 5);
            assert forall|i: int| 0 <= i < by.len() implies s[5 + i] == by[i] by {
                assert(b.render_spec()[5 + i] == by[i]);
            }
            assert(s[5 + by.len() as int] == '/');
            lemma_find_char_concat(s, '/', by, 5, 5);
            assert(bx.len() == by.len());
            assert(bx =~= by);
            let px = x.path@;
            let py = y.path@;
            assert(px.len() == py.len());
            assert forall|i: int| 0 <= i < px.len() implies px[i] == py[i] by {
                assert(a.render_spec()[5 + bx.len() as int + 1 + i] == px[i]);
                assert(b.render_spec()[5 + by.len() as int + 1 + i] == py[i]);
            }
            assert(px =~= py);
        },
        _ => {
            if a is BigQuery {
                assert(a.render_spec()[2] == 'g');
                assert(b.render_spec()[2] == ':');
            } else {
                assert(a.render_spec()[2] == ':');
                assert(b.render_spec()[2] == 'g');
            }
        },
    }
}

} // verus!
