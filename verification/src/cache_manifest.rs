//! The cache manifest: for each URL path of the generated site, a short hash of its content,
//! so that the service worker re-caches only what changed.
use vstd::prelude::*;
use crate::paths::{spec_strip_prefix, strip_prefix};
use crate::text::{chars_of, copy_string, str_eq, string_from_chars};

verus! {

/// The MD5 digest of `data`, as `md5::compute` gives it.
pub uninterp spec fn md5_digest(data: Seq<u8>) -> Seq<u8>;

/// `md5::compute`: its 16 bytes are the digest that `md5_digest` names; nothing more is said
/// of them.
#[verifier::external_body]
fn md5_compute(data: &[u8]) -> (r: [u8; 16])
    ensures
        r@ == md5_digest(data@),
{
    md5::compute(data).0
}

/// Lower-case hexadecimal digits.
pub open spec fn hex_chars() -> Seq<char> {
    seq!['0', '1', '2', '3', '4', '5', '6', '7', '8', '9', 'a', 'b', 'c', 'd', 'e', 'f']
}

/// Two lower-case hex digits of a byte, as `{:02x}` writes it.
pub open spec fn byte_hex(b: u8) -> Seq<char> {
    seq![hex_chars()[b as int / 16], hex_chars()[b as int % 16]]
}

/// The short content hash: the first eight hex digits of the digest `d`.
pub open spec fn short_hash(d: Seq<u8>) -> Seq<char> {
    byte_hex(d[0]) + byte_hex(d[1]) + byte_hex(d[2]) + byte_hex(d[3])
}

/// The map that a list of (key, value) pairs stands for; a later pair wins.
pub open spec fn files_map(s: Seq<(String, String)>) -> Map<Seq<char>, Seq<char>>
    decreases s.len(),
{
    if s.len() == 0 {
        Map::empty()
    } else {
        files_map(s.drop_last()).insert(s.last().0@, s.last().1@)
    }
}

/// No key occurs twice.
pub open spec fn keys_distinct(s: Seq<(String, String)>) -> bool {
    forall|i: int, j: int| 0 <= i < j < s.len() ==> s[i].0@ != s[j].0@
}

/// `s` with every `\` turned into `/`.
pub open spec fn backslashes_to_slashes(s: Seq<char>) -> Seq<char> {
    s.map_values(|c: char| if c == '\\' { '/' } else { c })
}

/// `/index.html`.
pub open spec fn index_html_suffix() -> Seq<char> {
    seq!['/', 'i', 'n', 'd', 'e', 'x', '.', 'h', 't', 'm', 'l']
}

/// The URL path of the file `file_path` of a site written to `output_dir`: `/` and the path
/// relative to `output_dir` (with `/` separators), a trailing `index.html` dropped; none when
/// the file is not under `output_dir`.
pub open spec fn url_path_for(file_path: Seq<char>, output_dir: Seq<char>) -> Option<Seq<char>> {
    match spec_strip_prefix(file_path, output_dir) {
        None => None,
        Some(rel) => {
            let u = seq!['/'] + backslashes_to_slashes(rel);
            if u.len() >= 11 && u.subrange(u.len() - 11, u.len() as int) == index_html_suffix() {
                Some(u.subrange(0, u.len() - 10))
            } else {
                Some(u)
            }
        },
    }
}

/// The cache manifest written next to the site.
pub struct CacheManifest {
    /// Build timestamp or version.
    pub version: String,
    /// URL path and content hash of each file; no URL path occurs twice.
    pub files: Vec<(String, String)>,
}

/// Collects the files of a site as it is generated.
pub struct CacheManifestBuilder {
    version: String,
    files: Vec<(String, String)>,
}

impl View for CacheManifestBuilder {
    type V = (Seq<char>, Map<Seq<char>, Seq<char>>);

    closed spec fn view(&self) -> Self::V {
        (self.version@, files_map(self.files@))
    }
}

proof fn lemma_files_map(s: Seq<(String, String)>)
    requires
        keys_distinct(s),
    ensures
        forall|i: int|
            0 <= i < s.len() ==> files_map(s).contains_key(#[trigger] s[i].0@) && files_map(s)[s[i].0@]
                == s[i].1@,
        forall|k: Seq<char>|
            files_map(s).contains_key(k) ==> exists|i: int| 0 <= i < s.len() && #[trigger] s[i].0@ == k,
    decreases s.len(),
{
    if s.len() > 0 {
        let t = s.drop_last();
        lemma_files_map(t);
        assert forall|i: int| 0 <= i < s.len() implies files_map(s).contains_key(#[trigger] s[i].0@)
            && files_map(s)[s[i].0@] == s[i].1@ by {
            if i < s.len() - 1 {
                assert(t[i] == s[i]);
            }
        }
        assert forall|k: Seq<char>| files_map(s).contains_key(k) implies exists|i: int|
            0 <= i < s.len() && #[trigger] s[i].0@ == k by {
            if k != s.last().0@ {
                assert(files_map(t).contains_key(k));
                let i = choose|i: int| 0 <= i < t.len() && #[trigger] t[i].0@ == k;
                assert(s[i] == t[i]);
            } else {
                assert(s[s.len() - 1].0@ == k);
            }
        }
    }
}

/// Two lower-case hex digits of `b`.
fn push_byte_hex(buf: &mut Vec<char>, b: u8)
    ensures
        final(buf)@ == old(buf)@ + byte_hex(b),
{
    let digits: [char; 16] = [
        '0', '1', '2', '3', '4', '5', '6', '7', '8', '9', 'a', 'b', 'c', 'd', 'e', 'f',
    ];
    assert(digits@ =~= hex_chars());
    let ghost start = buf@;
    buf.push(digits[(b / 16) as usize]);
    buf.push(digits[(b % 16) as usize]);
    assert(buf@ =~= start + byte_hex(b));
}

impl CacheManifestBuilder {
    #[verifier::type_invariant]
    spec fn distinct_files(&self) -> bool {
        keys_distinct(self.files@)
    }

    /// A builder for the given version, with no files yet.
    pub fn new(version: String) -> (r: Self)
        ensures
            r@.0 == version@,
            r@.1 == Map::<Seq<char>, Seq<char>>::empty(),
    {
        CacheManifestBuilder { version, files: Vec::new() }
    }

    /// A short hash of `content`: the first 8 hex digits of its MD5 digest.
    pub fn compute_hash(content: &[u8]) -> (r: String)
        ensures
            r@ == short_hash(md5_digest(content@)),
    {
        let d = md5_compute(content);
        let mut buf: Vec<char> = Vec::new();
        push_byte_hex(&mut buf, d[0]);
        push_byte_hex(&mut buf, d[1]);
        push_byte_hex(&mut buf, d[2]);
        push_byte_hex(&mut buf, d[3]);
        assert(buf@ =~= short_hash(md5_digest(content@)));
        string_from_chars(buf.as_slice())
    }

    /// Records the hash of `content` under `url_path`, replacing an earlier one.
    pub fn register(&mut self, url_path: &str, content: &[u8])
        ensures
            final(self)@.0 == old(self)@.0,
            final(self)@.1 == old(self)@.1.insert(url_path@, short_hash(md5_digest(content@))),
    {
        proof {
            use_type_invariant(&*self);
        }
        let hash = Self::compute_hash(content);
        let ghost h = hash@;
        let mut files: Vec<(String, String)> = Vec::new();
        std::mem::swap(&mut files, &mut self.files);
        let ghost s = files@;
        assert(keys_distinct(s));
        let mut i: usize = 0;
        while i < files.len()
            invariant
                i <= files.len(),
                files@ == s,
                s == old(self).files@,
                keys_distinct(s),
                self.version == old(self).version,
                h == hash@,
                h == short_hash(md5_digest(content@)),
                forall|j: int| 0 <= j < i ==> (#[trigger] s[j]).0@ != url_path@,
            decreases files.len() - i,
        {
            if str_eq(files[i].0.as_str(), url_path) {
                let key = copy_string(&files[i].0);
                let entry = (key, hash);
                proof {
                    lemma_files_map(s);
                }
                files.set(i, entry);
                let ghost n = files@;
                assert(n == s.update(i as int, entry));
                assert(keys_distinct(n)) by {
                    assert forall|a: int, b: int| 0 <= a < b < n.len() implies n[a].0@ != n[b].0@ by {
                        if a != i && b != i {
                            assert(n[a] == s[a] && n[b] == s[b]);
                        } else if a == i {
                            assert(n[b] == s[b]);
                        } else {
                            assert(n[a] == s[a]);
                        }
                    }
                }
                proof {
                    lemma_files_map(n);
                    let m_old = files_map(s);
                    let m_new = files_map(n);
                    assert forall|k: Seq<char>| m_new.contains_key(k) implies m_old.insert(
                        url_path@,
                        h,
                    ).contains_key(k) && m_new[k] == m_old.insert(url_path@, h)[k] by {
                        let j = choose|j: int| 0 <= j < n.len() && #[trigger] n[j].0@ == k;
                        assert(n[i as int].0@ == url_path@);
                        if j != i {
                            assert(n[j] == s[j]);
                            assert(s[j].0@ == k);
                            assert(k != url_path@);
                            assert(m_new[k] == n[j].1@);
                            assert(m_old[k] == s[j].1@);
                            assert(m_old.contains_key(k));
                        } else {
                            assert(m_new[k] == n[i as int].1@);
                            assert(n[i as int].1@ == h);
                            assert(k == url_path@);
                        }
                        assert(m_old.insert(url_path@, h).contains_key(k));
                        assert(m_new[k] == m_old.insert(url_path@, h)[k]);
                    }
                    assert forall|k: Seq<char>| m_old.insert(url_path@, h).contains_key(
                        k,
                    ) implies m_new.contains_key(k) by {
                        if k != url_path@ {
                            let j = choose|j: int| 0 <= j < s.len() && #[trigger] s[j].0@ == k;
                            assert(n[j] == s[j]);
                        } else {
                            assert(n[i as int].0@ == k);
                        }
                    }
                    assert(m_new =~= m_old.insert(url_path@, h));
                }
                self.files = files;
                return ;
            }
            i += 1;
        }
        let key = string_from_chars(chars_of(url_path).as_slice());
        files.push((key, hash));
        assert(files@.drop_last() =~= s);
        self.files = files;
    }

    /// Records the hash of `content` under the URL path of the file `file_path` of the site in
    /// `output_dir`; does nothing when the file is not under `output_dir`.
    pub fn register_file(&mut self, file_path: &str, output_dir: &str, content: &[u8])
        ensures
            match url_path_for(file_path@, output_dir@) {
                Some(u) => final(self)@.0 == old(self)@.0 && final(self)@.1 == old(self)@.1.insert(
                    u,
                    short_hash(md5_digest(content@)),
                ),
                None => final(self)@ == old(self)@,
            },
    {
        let rel = match strip_prefix(file_path, output_dir) {
            Some(r) => r,
            None => {
                return ;
            },
        };
        let rv = chars_of(rel.as_str());
        let mut u: Vec<char> = Vec::new();
        u.push('/');
        let mut i: usize = 0;
        while i < rv.len()
            invariant
                i <= rv.len(),
                u@ == seq!['/'] + backslashes_to_slashes(rv@.take(i as int)),
            decreases rv.len() - i,
        {
            let c = rv[i];
            u.push(
                if c == '\\' {
                    '/'
                } else {
                    c
                },
            );
            i += 1;
            assert(u@ =~= seq!['/'] + backslashes_to_slashes(rv@.take(i as int)));
        }
        assert(rv@.take(rv.len() as int) =~= rv@);
        let ghost full = u@;
        let suffix: [char; 11] = ['/', 'i', 'n', 'd', 'e', 'x', '.', 'h', 't', 'm', 'l'];
        assert(suffix@ =~= index_html_suffix());
        let n = u.len();
        let mut ends = n >= 11;
        if ends {
            let mut j: usize = 0;
            while j < 11
                invariant
                    n == u.len(),
                    n >= 11,
                    j <= 11,
                    suffix@ == index_html_suffix(),
                    ends <==> forall|k: int| 0 <= k < j ==> u@[n - 11 + k] == suffix@[k],
                decreases 11 - j,
            {
                if u[n - 11 + j] != suffix[j] {
                    ends = false;
                }
                j += 1;
            }
            assert(ends <==> u@.subrange(n - 11, n as int) =~= index_html_suffix());
        }
        if ends {
            u.truncate(n - 10);
            assert(u@ =~= full.subrange(0, full.len() - 10));
        }
        let url = string_from_chars(u.as_slice());
        self.register(url.as_str(), content);
    }

    /// The manifest collected so far.
    pub fn manifest(&self) -> (r: CacheManifest)
        ensures
            r.version@ == self@.0,
            files_map(r.files@) == self@.1,
            keys_distinct(r.files@),
    {
        proof {
            use_type_invariant(self);
        }
        let mut files: Vec<(String, String)> = Vec::new();
        let mut i: usize = 0;
        while i < self.files.len()
            invariant
                i <= self.files.len(),
                files@.len() == i,
                forall|j: int|
                    0 <= j < i ==> (#[trigger] files@[j]).0@ == self.files@[j].0@ && files@[j].1@
                        == self.files@[j].1@,
                keys_distinct(self.files@),
                keys_distinct(files@),
                files_map(files@) == files_map(self.files@.take(i as int)),
            decreases self.files.len() - i,
        {
            let entry = (copy_string(&self.files[i].0), copy_string(&self.files[i].1));
            let ghost prev = files@;
            files.push(entry);
            assert(files@.drop_last() =~= prev);
            assert(self.files@.take(i + 1).drop_last() =~= self.files@.take(i as int));
            i += 1;
        }
        assert(self.files@.take(self.files.len() as int) =~= self.files@);
        CacheManifest { version: copy_string(&self.version), files }
    }
}

} // verus!
