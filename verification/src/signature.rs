//! Signed pages: the payload a signature covers, a keyring of trusted
//! ed25519 signers, and what a page's signature says about it.

use vstd::prelude::*;
use crate::text;
use crate::codec::{base64_decode, base64_decoded};
use crate::text::{eq_ic, lines};
use crate::document::{metadata_value, metadata_value_bounds, opt_str, split_colon};

verus! {

broadcast use vstd::string::group_string_axioms;

/// What a page's signature says about it.
#[derive(Debug, Clone, PartialEq, Eq)]
pub enum SignatureStatus {
    Secure { signer: String },
    Unsigned,
    UnknownSigner { signer: String },
    Invalid { reason: String },
}

pub ghost enum SignatureStatusV {
    Secure { signer: Seq<char> },
    Unsigned,
    UnknownSigner { signer: Seq<char> },
    Invalid { reason: Seq<char> },
}

impl View for SignatureStatus {
    type V = SignatureStatusV;

    open spec fn view(&self) -> SignatureStatusV {
        match self {
            SignatureStatus::Secure { signer } => SignatureStatusV::Secure { signer: signer@ },
            SignatureStatus::Unsigned => SignatureStatusV::Unsigned,
            SignatureStatus::UnknownSigner { signer } => SignatureStatusV::UnknownSigner { signer: signer@ },
            SignatureStatus::Invalid { reason } => SignatureStatusV::Invalid { reason: reason@ },
        }
    }
}

/// How the browser labels a page's signature.
pub open spec fn label_of(s: SignatureStatusV) -> Seq<char> {
    match s {
        SignatureStatusV::Secure { signer } => "secure: signed by "@ + signer,
        SignatureStatusV::Unsigned => "not secure: unsigned"@,
        SignatureStatusV::UnknownSigner { signer } => "not secure: unknown signer "@ + signer,
        SignatureStatusV::Invalid { reason } => "not secure: "@ + reason,
    }
}

pub fn security_label(status: &SignatureStatus) -> (r: String)
    ensures
        r@ == label_of(status@),
{
    let mut out: Vec<char> = Vec::new();
    match status {
        SignatureStatus::Secure { signer } => {
            text::push_str(&mut out, "secure: signed by ");
            text::push_str(&mut out, signer.as_str());
        },
        SignatureStatus::Unsigned => {
            text::push_str(&mut out, "not secure: unsigned");
        },
        SignatureStatus::UnknownSigner { signer } => {
            text::push_str(&mut out, "not secure: unknown signer ");
            text::push_str(&mut out, signer.as_str());
        },
        SignatureStatus::Invalid { reason } => {
            text::push_str(&mut out, "not secure: ");
            text::push_str(&mut out, reason.as_str());
        },
    }
    text::string_from(out.as_slice())
}

/// The delimiter before a page's metadata.
pub open spec fn delimiter() -> Seq<char> {
    "~~~~~"@
}

/// Whether a metadata line is kept in the signed payload: every line but
/// a `signature:` line (any letter case, any space around the key).
pub open spec fn unsigned_line(l: Seq<char>) -> bool {
    match split_colon(l) {
        None => true,
        Some((k, _)) => !eq_ic(text::trim(k), "signature"@),
    }
}

/// What a page's signature covers: the page up to the metadata
/// delimiter, the delimiter, and the metadata without its signature
/// lines, trimmed and ended by a line feed. A page without metadata is
/// covered as it is.
pub open spec fn signature_payload(s: Seq<char>) -> Seq<char> {
    match text::find(s, delimiter()) {
        None => s,
        Some(k) => s.take(k) + "~~~~~\n"@ + text::trim(
            text::join(lines(s.skip(k + 5)).filter(|l: Seq<char>| unsigned_line(l)), seq!['\n']),
        ) + seq!['\n'],
    }
}

/// Lines ending in a line feed, then one more line: the lines are the
/// same lines and that one.
proof fn lemma_lines_push(a: Seq<char>, l: Seq<char>)
    requires
        a.len() == 0 || a.last() == '\n',
        text::free_of(l, '\n'),
    ensures
        lines(a + l + seq!['\n']) == lines(a).push(text::strip_cr(l)),
{
    let x = a + l + seq!['\n'];
    assert(x.drop_last() =~= a + l);
    assert(x.last() == '\n');
    text::lemma_split_nl_is_split_on(a + l);
    if a.len() == 0 {
        assert(a + l =~= l);
        text::lemma_split_on_free(l, '\n');
        assert(lines(a) =~= Seq::<Seq<char>>::empty());
        assert(text::strip_crs(seq![l]) =~= seq![text::strip_cr(l)]);
    } else {
        let a1 = a.drop_last();
        assert(a + l =~= a1 + seq!['\n'] + l);
        text::lemma_split_on_append(a1, l, '\n');
        text::lemma_split_nl_is_split_on(a1);
        assert(a.drop_last() == a1);
        let p = text::split_nl(a1);
        assert(text::strip_crs(p.push(l)) =~= text::strip_crs(p).push(text::strip_cr(l)));
    }
}

/// Adding a `signature:` line at the end of a page's metadata leaves what
/// the signature covers unchanged: a page is signed, then the signature is
/// appended.
pub proof fn lemma_signature_line_not_covered(s: Seq<char>, v: Seq<char>)
    requires
        text::find(s, delimiter()) is Some,
        s.len() > 0,
        s.last() == '\n',
        text::free_of(v, '\n'),
    ensures
        signature_payload(s + "signature: "@ + v + seq!['\n']) == signature_payload(s),
{
    reveal_strlit("~~~~~");
    reveal_strlit("signature: ");
    reveal_strlit("signature");
    let d = delimiter();
    let line = "signature: "@ + v;
    let t = line + seq!['\n'];
    let st = s + t;
    assert(st =~= s + line + seq!['\n']);
    text::lemma_find_from_bounds(s, d, 0);
    let k = text::find(s, d)->0;
    assert(text::occurs_at(s, d, k));
    assert(k + 5 <= s.len());
    assert(d.len() == 5);
    assert(st.subrange(k, k + 5) =~= s.subrange(k, k + 5));
    assert(text::occurs_at(st, d, k));
    assert forall|j: int| 0 <= j < k implies !text::occurs_at(st, d, j) by {
        assert(!text::occurs_at(s, d, j));
        assert(st.subrange(j, j + 5) =~= s.subrange(j, j + 5));
    }
    text::lemma_find_from_bounds(st, d, 0);
    assert(text::find(st, d) == Some(k)) by {
        if text::find(st, d) is None {
            assert(!text::occurs_at(st, d, k));
        } else {
            let k2 = text::find(st, d)->0;
            assert(!(k2 < k));
            assert(!(k2 > k));
        }
    }
    let meta = s.skip(k + 5);
    assert(st.take(k) =~= s.take(k));
    assert(st.skip(k + 5) =~= meta + line + seq!['\n']);
    assert(k + 5 < s.len()) by {
        if k + 5 == s.len() {
            assert(s.last() == s.subrange(k, k + 5)[4]);
        }
    }
    assert(meta.last() == '\n');
    assert(text::free_of(line, '\n')) by {
        assert forall|i: int| 0 <= i < line.len() implies line[i] != '\n' by {
            if i >= 11 {
                assert(line[i] == v[i - 11]);
            }
        }
    }
    lemma_lines_push(meta, line);
    let sl = text::strip_cr(line);
    assert(sl.len() >= 11 && sl.subrange(0, 11) =~= "signature: "@) by {
        if line.len() > 0 && line.last() == '\r' {
            assert(v.len() > 0);
        }
    }
    let pred = |l: Seq<char>| unsigned_line(l);
    lines(meta).lemma_filter_push(sl, pred);
    text::lemma_char_from(sl, ':', 0);
    assert(sl[9] == ':');
    assert forall|j: int| 0 <= j < 9 implies sl[j] != ':' by {
        assert(sl[j] == sl.subrange(0, 11)[j]);
    }
    assert(text::char_from(sl, ':', 0) == 9);
    assert(sl.take(9) =~= "signature"@);
    text::lemma_trim_plain(sl.take(9));
    assert(!unsigned_line(sl));
    assert(lines(st.skip(k + 5)) == lines(meta).push(sl));
    assert(lines(st.skip(k + 5)).filter(|l: Seq<char>| unsigned_line(l)) == lines(meta).filter(
        |l: Seq<char>| unsigned_line(l),
    ));
    assert(st =~= s + "signature: "@ + v + seq!['\n']);
    assert(signature_payload(s) == s.take(k) + "~~~~~\n"@ + text::trim(
        text::join(lines(meta).filter(|l: Seq<char>| unsigned_line(l)), seq!['\n']),
    ) + seq!['\n']);
    assert(signature_payload(st) == st.take(k) + "~~~~~\n"@ + text::trim(
        text::join(lines(st.skip(k + 5)).filter(|l: Seq<char>| unsigned_line(l)), seq!['\n']),
    ) + seq!['\n']);
}

fn is_unsigned_line(l: &[char]) -> (r: bool)
    ensures
        r == unsigned_line(l@),
{
    proof {
        text::lemma_char_from(l@, ':', 0);
    }
    let c = text::find_char(l, ':', 0);
    if c >= l.len() {
        return true;
    }
    let k = text::slice_of(l, 0, c);
    assert(k@ =~= l@.take(c as int));
    let kt = text::trimmed(k.as_slice());
    !text::chars_eq_ic(kt.as_slice(), text::chars_of("signature").as_slice())
}

pub fn canonical_signature_payload(source: &str) -> (r: String)
    ensures
        r@ == signature_payload(source@),
{
    let s = text::chars_of(source);
    let d = text::chars_of("~~~~~");
    let k = match text::find_sub(s.as_slice(), d.as_slice(), 0) {
        None => {
            return String::from_str(source);
        },
        Some(k) => k,
    };
    proof {
        reveal_strlit("~~~~~");
        text::lemma_find_from_bounds(s@, d@, 0);
    }
    assert(s@.len() == s.len());
    assert(k + 5 <= s@.len());
    let meta = text::slice_of(s.as_slice(), k + 5, s.len());
    assert(meta@ =~= s@.skip(k + 5));
    let ls = text::lines_of(meta.as_slice());
    let ghost all = text::views(ls@);
    let ghost pred = |l: Seq<char>| unsigned_line(l);
    let mut kept: Vec<Vec<char>> = Vec::new();
    let mut i: usize = 0;
    assert(all.take(0).filter(pred) =~= Seq::<Seq<char>>::empty());
    while i < ls.len()
        invariant
            i <= ls@.len(),
            all == text::views(ls@),
            pred == (|l: Seq<char>| unsigned_line(l)),
            text::views(kept@) == all.take(i as int).filter(pred),
        decreases ls@.len() - i,
    {
        proof {
            assert(all.take(i + 1) =~= all.take(i as int).push(all[i as int]));
            all.take(i as int).lemma_filter_push(all[i as int], pred);
        }
        if is_unsigned_line(ls[i].as_slice()) {
            let ghost before = kept@;
            let l = text::copy_chars(ls[i].as_slice());
            kept.push(l);
            assert(text::views(kept@) =~= text::views(before).push(all[i as int]));
        }
        i = i + 1;
    }
    assert(all.take(ls@.len() as int) =~= all);
    let sep = ['\n'];
    assert(sep@ =~= seq!['\n']);
    let joined = text::join_vecs(kept.as_slice(), sep.as_slice());
    assert(all == lines(source@.skip(k + 5)));
    assert(joined@ == text::join(lines(source@.skip(k + 5)).filter(|l: Seq<char>| unsigned_line(l)), seq!['\n']));
    let t = text::trimmed(joined.as_slice());
    let mut out = text::slice_of(s.as_slice(), 0, k);
    text::push_str(&mut out, "~~~~~\n");
    text::push_chars(&mut out, t.as_slice());
    out.push('\n');
    assert(out@ =~= signature_payload(source@));
    text::string_from(out.as_slice())
}

/// Why `ed25519-dalek` refuses 32 bytes as a public key, if it does.
pub uninterp spec fn ed25519_key_rejection(key: Seq<u8>) -> Option<Seq<char>>;

/// Calls `ed25519_dalek::VerifyingKey::from_bytes` on the 32 bytes and
/// reports `None` when the key is accepted, or the error as text. Which
/// points the curve accepts is only named here.
#[verifier::external_body]
fn ed25519_key_check(key: &[u8]) -> (r: Option<String>)
    requires
        key@.len() == 32,
    ensures
        opt_str(r) == ed25519_key_rejection(key@),
{
    let bytes: &[u8; 32] = key.try_into().unwrap();
    match ed25519_dalek::VerifyingKey::from_bytes(bytes) {
        Ok(_) => None,
        Err(e) => Some(e.to_string()),
    }
}

/// Why `ed25519-dalek` refuses a signature of a message under a key, if
/// it does.
pub uninterp spec fn ed25519_rejection(key: Seq<u8>, message: Seq<u8>, signature: Seq<u8>) -> Option<
    Seq<char>,
>;

/// `ed25519_dalek`'s `Verifier::verify` of `signature` (read by
/// `Signature::from_bytes`) over `message`, under the key that
/// `VerifyingKey::from_bytes` makes of `key`: `None` when it holds, else
/// the error as text. The check itself is only named.
#[verifier::external_body]
fn ed25519_check(key: &[u8], message: &[u8], signature: &[u8]) -> (r: Option<String>)
    requires
        key@.len() == 32,
        signature@.len() == 64,
    ensures
        opt_str(r) == ed25519_rejection(key@, message@, signature@),
{
    let key = match ed25519_dalek::VerifyingKey::from_bytes(key.try_into().unwrap()) {
        Ok(k) => k,
        Err(e) => return Some(e.to_string()),
    };
    let sig = ed25519_dalek::Signature::from_bytes(signature.try_into().unwrap());
    ed25519_dalek::Verifier::verify(&key, message, &sig).err().map(|e| e.to_string())
}

fn same_text(a: &str, b: &str) -> (r: bool)
    ensures
        r == (a@ == b@),
{
    text::chars_eq(text::chars_of(a).as_slice(), text::chars_of(b).as_slice())
}

/// The signers and their keys: `k` given key `v` replaces the first entry
/// for `k`, or goes last.
pub open spec fn insert_key(s: Seq<(Seq<char>, Seq<u8>)>, k: Seq<char>, v: Seq<u8>) -> Seq<
    (Seq<char>, Seq<u8>),
>
    decreases s.len(),
{
    if s.len() == 0 {
        seq![(k, v)]
    } else if s[0].0 == k {
        seq![(k, v)] + s.drop_first()
    } else {
        seq![s[0]] + insert_key(s.drop_first(), k, v)
    }
}

/// The key of signer `k`.
pub open spec fn key_of(s: Seq<(Seq<char>, Seq<u8>)>, k: Seq<char>) -> Option<Seq<u8>>
    decreases s.len(),
{
    if s.len() == 0 {
        None
    } else if s[0].0 == k {
        Some(s[0].1)
    } else {
        key_of(s.drop_first(), k)
    }
}

/// After a key is given to a signer, that signer has that key, and every
/// other signer keeps theirs.
pub proof fn lemma_key_of_insert(s: Seq<(Seq<char>, Seq<u8>)>, k: Seq<char>, v: Seq<u8>, j: Seq<char>)
    ensures
        key_of(insert_key(s, k, v), j) == if j == k {
            Some(v)
        } else {
            key_of(s, j)
        },
    decreases s.len(),
{
    let ins = insert_key(s, k, v);
    if s.len() == 0 {
        assert(ins == seq![(k, v)]);
        assert(ins.drop_first() =~= Seq::<(Seq<char>, Seq<u8>)>::empty());
        assert(key_of(ins.drop_first(), j) is None);
    } else if s[0].0 == k {
        assert(ins == seq![(k, v)] + s.drop_first());
        assert(ins[0] == (k, v));
        assert(ins.drop_first() =~= s.drop_first());
    } else {
        lemma_key_of_insert(s.drop_first(), k, v, j);
        assert(ins == seq![s[0]] + insert_key(s.drop_first(), k, v));
        assert(ins[0] == s[0]);
        assert(ins.drop_first() =~= insert_key(s.drop_first(), k, v));
        assert(key_of(ins, j) == if s[0].0 == j {
            Some(s[0].1)
        } else {
            key_of(insert_key(s.drop_first(), k, v), j)
        });
    }
}

/// The ed25519 public key that base64 text gives, or why it gives none.
pub open spec fn key_bytes_for(key_base64: Seq<char>) -> Result<Seq<u8>, Seq<char>> {
    match base64_decoded(key_base64) {
        Err(e) => Err("bad ed25519 public key base64: "@ + e),
        Ok(b) => if b.len() != 32 {
            Err("ed25519 public keys must be 32 bytes"@)
        } else {
            match ed25519_key_rejection(b) {
                Some(e) => Err("bad ed25519 public key: "@ + e),
                None => Ok(b),
            }
        },
    }
}

/// The ed25519 public keys of trusted signers.
#[derive(Debug)]
pub struct PublicKeyring {
    ed25519_keys: Vec<(String, Vec<u8>)>,
}

pub open spec fn keys_view(v: Seq<(String, Vec<u8>)>) -> Seq<(Seq<char>, Seq<u8>)> {
    v.map_values(|p: (String, Vec<u8>)| (p.0@, p.1@))
}

impl Default for PublicKeyring {
    fn default() -> (r: PublicKeyring)
        ensures
            r.keys() == Seq::<(Seq<char>, Seq<u8>)>::empty(),
    {
        let v: Vec<(String, Vec<u8>)> = Vec::new();
        assert(v@.len() == 0);
        let r = PublicKeyring { ed25519_keys: v };
        assert(keys_view(r.ed25519_keys@) =~= Seq::<(Seq<char>, Seq<u8>)>::empty());
        r
    }
}

impl Clone for PublicKeyring {
    fn clone(&self) -> (r: PublicKeyring)
        ensures
            r.keys() == self.keys(),
    {
        proof {
            use_type_invariant(self);
        }
        let mut v: Vec<(String, Vec<u8>)> = Vec::new();
        let mut i: usize = 0;
        while i < self.ed25519_keys.len()
            invariant
                i <= self.ed25519_keys@.len(),
                keys_view(v@) == keys_view(self.ed25519_keys@).take(i as int),
                forall|j: int| 0 <= j < self.ed25519_keys@.len() ==> (#[trigger] self.ed25519_keys@[j]).1@.len() == 32,
                forall|j: int| 0 <= j < v@.len() ==> (#[trigger] v@[j]).1@.len() == 32,
            decreases self.ed25519_keys@.len() - i,
        {
            let signer = String::from_str(self.ed25519_keys[i].0.as_str());
            let key = vstd::slice::slice_to_vec(self.ed25519_keys[i].1.as_slice());
            let ghost before = v@;
            let ghost item = (signer@, key@);
            assert(item == (self.ed25519_keys@[i as int].0@, self.ed25519_keys@[i as int].1@));
            v.push((signer, key));
            assert(keys_view(v@) =~= keys_view(before).push(item));
            assert(keys_view(self.ed25519_keys@).take(i + 1) =~= keys_view(self.ed25519_keys@).take(
                i as int,
            ).push(item));
            i = i + 1;
        }
        assert(keys_view(self.ed25519_keys@).take(i as int) =~= keys_view(self.ed25519_keys@));
        PublicKeyring { ed25519_keys: v }
    }
}

impl PublicKeyring {
    /// The signers and their keys.
    pub closed spec fn keys(&self) -> Seq<(Seq<char>, Seq<u8>)> {
        keys_view(self.ed25519_keys@)
    }

    /// Every key is 32 bytes.
    #[verifier::type_invariant]
    closed spec fn keys_are_ed25519(&self) -> bool {
        forall|i: int| 0 <= i < self.ed25519_keys@.len() ==> (#[trigger] self.ed25519_keys@[i]).1@.len() == 32
    }

    fn insert(&mut self, signer: String, key: Vec<u8>)
        requires
            key@.len() == 32,
        ensures
            final(self).keys() == insert_key(old(self).keys(), signer@, key@),
    {
        proof {
            use_type_invariant(&*self);
        }
        let mut v: Vec<(String, Vec<u8>)> = Vec::new();
        std::mem::swap(&mut v, &mut self.ed25519_keys);
        let ghost s = keys_view(v@);
        let mut i: usize = 0;
        while i < v.len() && !same_text(v[i].0.as_str(), signer.as_str())
            invariant
                i <= v@.len(),
                s == keys_view(v@),
                forall|j: int| 0 <= j < i ==> s[j].0 != signer@,
            decreases v@.len() - i,
        {
            assert(s[i as int].0 == v@[i as int].0@);
            i = i + 1;
        }
        let ghost before = v@;
        if i < v.len() {
            assert(s[i as int].0 == v@[i as int].0@);
            v.set(i, (signer, key));
            proof {
                lemma_insert_at(s, signer@, key@, i as int);
                assert(keys_view(v@) =~= keys_view(before).update(i as int, (signer@, key@)));
            }
        } else {
            v.push((signer, key));
            proof {
                lemma_insert_absent(s, signer@, key@);
                assert(keys_view(v@) =~= keys_view(before).push((signer@, key@)));
            }
        }
        assert forall|j: int| 0 <= j < v@.len() implies (#[trigger] v@[j]).1@.len() == 32 by {
            if j != i {
                assert(v@[j] == before[j]);
            }
        }
        self.ed25519_keys = v;
    }

    fn lookup(&self, signer: &[char]) -> (r: Option<&Vec<u8>>)
        ensures
            match key_of(self.keys(), signer@) {
                Some(k) => r matches Some(v) && v@ == k && k.len() == 32,
                None => r is None,
            },
    {
        proof {
            use_type_invariant(self);
        }
        let ghost s = self.keys();
        let mut i: usize = 0;
        assert(s.skip(0) =~= s);
        while i < self.ed25519_keys.len()
            invariant
                i <= self.ed25519_keys@.len(),
                s == keys_view(self.ed25519_keys@),
                key_of(s, signer@) == key_of(s.skip(i as int), signer@),
                forall|j: int| 0 <= j < self.ed25519_keys@.len() ==> (#[trigger] self.ed25519_keys@[j]).1@.len() == 32,
            decreases self.ed25519_keys@.len() - i,
        {
            assert(s.skip(i as int).drop_first() =~= s.skip(i + 1));
            assert(s.skip(i as int)[0] == s[i as int]);
            assert(self.ed25519_keys@[i as int].1@.len() == 32);
            if text::chars_eq(text::chars_of(self.ed25519_keys[i].0.as_str()).as_slice(), signer) {
                return Some(&self.ed25519_keys[i].1);
            }
            i = i + 1;
        }
        None
    }

    /// Trusts `signer` with the ed25519 public key given in base64; see
    /// `key_bytes_for` for when it is refused.
    pub fn add_ed25519_key(&mut self, signer: &str, key_base64: &str) -> (r: Result<(), String>)
        ensures
            match key_bytes_for(key_base64@) {
                Ok(b) => r is Ok && final(self).keys() == insert_key(old(self).keys(), signer@, b),
                Err(m) => r matches Err(e) && e@ == m && final(self).keys() == old(self).keys(),
            },
    {
        let bytes = match base64_decode(key_base64) {
            Ok(b) => b,
            Err(e) => {
                let mut out = text::chars_of("bad ed25519 public key base64: ");
                text::push_str(&mut out, e.as_str());
                return Err(text::string_from(out.as_slice()));
            },
        };
        if bytes.len() != 32 {
            return Err(String::from_str("ed25519 public keys must be 32 bytes"));
        }
        match ed25519_key_check(bytes.as_slice()) {
            Some(e) => {
                let mut out = text::chars_of("bad ed25519 public key: ");
                text::push_str(&mut out, e.as_str());
                Err(text::string_from(out.as_slice()))
            },
            None => {
                self.insert(String::from_str(signer), bytes);
                Ok(())
            },
        }
    }
}

proof fn lemma_insert_at(s: Seq<(Seq<char>, Seq<u8>)>, k: Seq<char>, v: Seq<u8>, i: int)
    requires
        0 <= i < s.len(),
        s[i].0 == k,
        forall|j: int| 0 <= j < i ==> s[j].0 != k,
    ensures
        insert_key(s, k, v) == s.update(i, (k, v)),
    decreases i,
{
    if i == 0 {
        assert(seq![(k, v)] + s.drop_first() =~= s.update(0, (k, v)));
    } else {
        lemma_insert_at(s.drop_first(), k, v, i - 1);
        assert(seq![s[0]] + s.drop_first().update(i - 1, (k, v)) =~= s.update(i, (k, v)));
    }
}

proof fn lemma_insert_absent(s: Seq<(Seq<char>, Seq<u8>)>, k: Seq<char>, v: Seq<u8>)
    requires
        forall|j: int| 0 <= j < s.len() ==> s[j].0 != k,
    ensures
        insert_key(s, k, v) == s.push((k, v)),
    decreases s.len(),
{
    if s.len() > 0 {
        lemma_insert_absent(s.drop_first(), k, v);
        assert(seq![s[0]] + s.drop_first().push((k, v)) =~= s.push((k, v)));
    } else {
        assert(seq![(k, v)] =~= s.push((k, v)));
    }
}

/// The two words of a trimmed line, when it has exactly two.
pub open spec fn two_words(t: Seq<char>) -> Option<(Seq<char>, Seq<char>)> {
    let i = text::ws_from(t, 0);
    let j = text::skip_ws_from(t, i);
    if i < t.len() && j < t.len() && text::ws_from(t, j) == t.len() {
        Some((t.take(i), t.skip(j)))
    } else {
        None
    }
}

/// The message for a keyring line that is not `<signer> ed25519:<key>`.
pub open spec fn line_form_error(n: nat) -> Seq<char> {
    "line "@ + text::decimal(n) + ": expected `<signer> ed25519:<base64-public-key>`"@
}

/// The keys after line `n` (counting from 1) of a keyring file is read.
/// Blank lines and lines starting with `#` are skipped.
pub open spec fn key_line(raw: Seq<char>, n: nat, keys: Seq<(Seq<char>, Seq<u8>)>) -> Result<
    Seq<(Seq<char>, Seq<u8>)>,
    Seq<char>,
> {
    let t = text::trim(raw);
    if t.len() == 0 || t[0] == '#' {
        Ok(keys)
    } else {
        match two_words(t) {
            None => Err(line_form_error(n)),
            Some((signer, key)) => if !"ed25519:"@.is_prefix_of(key) {
                Err(line_form_error(n))
            } else {
                match key_bytes_for(key.skip(8)) {
                    Ok(b) => Ok(insert_key(keys, signer, b)),
                    Err(e) => Err("line "@ + text::decimal(n) + ": "@ + e),
                }
            },
        }
    }
}

/// The keys that the first `i` lines of a keyring file give, or the first
/// error among them.
pub open spec fn keyring_from(ls: Seq<Seq<char>>, i: int) -> Result<Seq<(Seq<char>, Seq<u8>)>, Seq<char>>
    decreases i,
{
    if i <= 0 {
        Ok(Seq::empty())
    } else {
        match keyring_from(ls, i - 1) {
            Err(m) => Err(m),
            Ok(keys) => key_line(ls[i - 1], i as nat, keys),
        }
    }
}

/// Once a keyring file has a bad line, reading more lines keeps that error.
proof fn lemma_keyring_error_stays(ls: Seq<Seq<char>>, i: int, j: int)
    requires
        0 <= i <= j,
        keyring_from(ls, i) is Err,
    ensures
        keyring_from(ls, j) == keyring_from(ls, i),
    decreases j - i,
{
    if j > i {
        lemma_keyring_error_stays(ls, i, j - 1);
    }
}

fn ws_index(s: &[char], i: usize) -> (r: usize)
    requires
        i <= s@.len(),
    ensures
        r == text::ws_from(s@, i as int),
        i <= r <= s@.len(),
{
    proof {
        text::lemma_ws_from(s@, i as int);
    }
    let mut k = i;
    while k < s.len() && !text::char_is_ws(s[k])
        invariant
            i <= k <= s@.len(),
            text::ws_from(s@, k as int) == text::ws_from(s@, i as int),
        decreases s@.len() - k,
    {
        k = k + 1;
    }
    k
}

fn non_ws_index(s: &[char], i: usize) -> (r: usize)
    requires
        i <= s@.len(),
    ensures
        r == text::skip_ws_from(s@, i as int),
        i <= r <= s@.len(),
{
    proof {
        text::lemma_trim_start_skip(s@, i as int);
    }
    let mut k = i;
    while k < s.len() && text::char_is_ws(s[k])
        invariant
            i <= k <= s@.len(),
            text::skip_ws_from(s@, k as int) == text::skip_ws_from(s@, i as int),
        decreases s@.len() - k,
    {
        k = k + 1;
    }
    k
}

fn line_error(n: usize, detail: &str) -> (r: String)
    ensures
        r@ == "line "@ + text::decimal(n as nat) + ": "@ + detail@,
{
    let mut out = text::chars_of("line ");
    text::push_decimal(&mut out, n);
    text::push_str(&mut out, ": ");
    text::push_str(&mut out, detail);
    text::string_from(out.as_slice())
}

impl PublicKeyring {
    /// Reads a keyring file: one `<signer> ed25519:<base64-public-key>`
    /// per line; blank lines and `#` comments are skipped. The first bad
    /// line is reported with its number.
    pub fn from_text(source: &str) -> (r: Result<PublicKeyring, String>)
        ensures
            match keyring_from(lines(source@), lines(source@).len() as int) {
                Ok(keys) => r matches Ok(k) && k.keys() == keys,
                Err(m) => r matches Err(e) && e@ == m,
            },
    {
        let ls = text::lines_of(text::chars_of(source).as_slice());
        let ghost all = text::views(ls@);
        let mut keyring = PublicKeyring::default();
        let mut i: usize = 0;
        while i < ls.len()
            invariant
                i <= ls@.len(),
                all == text::views(ls@),
                all == lines(source@),
                keyring_from(all, i as int) == Ok::<Seq<(Seq<char>, Seq<u8>)>, Seq<char>>(keyring.keys()),
            decreases ls@.len() - i,
        {
            proof {
                reveal_strlit("ed25519:");
                reveal_strlit(": expected `<signer> ed25519:<base64-public-key>`");
                reveal_strlit("expected `<signer> ed25519:<base64-public-key>`");
                reveal_strlit(": ");
            }
            let n = i + 1;
            assert(all[i as int] == ls@[i as int]@);
            let t = text::trimmed(ls[i].as_slice());
            if t.len() == 0 || t[0] == '#' {
                i = i + 1;
                continue;
            }
            let a = ws_index(t.as_slice(), 0);
            let b = non_ws_index(t.as_slice(), a);
            let form = "expected `<signer> ed25519:<base64-public-key>`";
            assert(": "@ + form@ =~= ": expected `<signer> ed25519:<base64-public-key>`"@);
            assert("line "@ + text::decimal(n as nat) + ": "@ + form@ =~= line_form_error(n as nat));
            assert(t@ == text::trim(all[i as int]));
            if a >= t.len() || b >= t.len() || ws_index(t.as_slice(), b) != t.len() {
                proof {
                    lemma_keyring_error_stays(all, i + 1, all.len() as int);
                }
                return Err(line_error(n, form));
            }
            let signer = text::slice_of(t.as_slice(), 0, a);
            let key = text::slice_of(t.as_slice(), b, t.len());
            assert(signer@ =~= t@.take(a as int));
            assert(key@ =~= t@.skip(b as int));
            let ed = text::chars_of("ed25519:");
            if !text::starts_with(key.as_slice(), ed.as_slice()) {
                proof {
                    lemma_keyring_error_stays(all, i + 1, all.len() as int);
                }
                return Err(line_error(n, form));
            }
            let k64 = text::slice_of(key.as_slice(), 8, key.len());
            assert(k64@ =~= key@.skip(8));
            let k64s = text::string_from(k64.as_slice());
            let signer_s = text::string_from(signer.as_slice());
            match keyring.add_ed25519_key(signer_s.as_str(), k64s.as_str()) {
                Ok(()) => {},
                Err(e) => {
                    proof {
                        lemma_keyring_error_stays(all, i + 1, all.len() as int);
                    }
                    return Err(line_error(n, e.as_str()));
                },
            }
            i = i + 1;
        }
        assert(all.len() == ls@.len());
        Ok(keyring)
    }
}

/// What a page's signature says, given the trusted keys: unsigned without
/// a `signed-by` value in its metadata; secure when the `signature` value
/// is `ed25519:` and base64 of 64 bytes that `ed25519-dalek` accepts as the
/// signer's signature of the page's signed payload (as UTF-8); otherwise
/// unknown signer or invalid, with the reason.
pub open spec fn signature_status(src: Seq<char>, keys: Seq<(Seq<char>, Seq<u8>)>) -> SignatureStatusV {
    match text::find(src, delimiter()) {
        None => SignatureStatusV::Unsigned,
        Some(k) => {
            let meta = src.skip(k + 5);
            match metadata_value(meta, "signed-by"@) {
                None => SignatureStatusV::Unsigned,
                Some(signer) => match metadata_value(meta, "signature"@) {
                    None => SignatureStatusV::Invalid {
                        reason: "signed-by `"@ + signer + "` is present without a signature"@,
                    },
                    Some(sv) => if !"ed25519:"@.is_prefix_of(sv) {
                        SignatureStatusV::Invalid { reason: "signature must use ed25519:<base64>"@ }
                    } else {
                        match key_of(keys, signer) {
                            None => SignatureStatusV::UnknownSigner { signer },
                            Some(key) => match base64_decoded(sv.skip(8)) {
                                Err(e) => SignatureStatusV::Invalid { reason: "bad signature base64: "@ + e },
                                Ok(b) => if b.len() != 64 {
                                    SignatureStatusV::Invalid { reason: "ed25519 signatures must be 64 bytes"@ }
                                } else {
                                    match ed25519_rejection(
                                        key,
                                        vstd::utf8::encode_utf8(signature_payload(src)),
                                        b,
                                    ) {
                                        None => SignatureStatusV::Secure { signer },
                                        Some(e) => SignatureStatusV::Invalid {
                                            reason: "signature verification failed: "@ + e,
                                        },
                                    }
                                },
                            },
                        }
                    },
                },
            }
        },
    }
}

fn joined2(a: &str, b: &str) -> (r: String)
    ensures
        r@ == a@ + b@,
{
    let mut out = text::chars_of(a);
    text::push_str(&mut out, b);
    text::string_from(out.as_slice())
}

fn joined3(a: &str, b: &[char], c: &str) -> (r: String)
    ensures
        r@ == a@ + b@ + c@,
{
    let mut out = text::chars_of(a);
    text::push_chars(&mut out, b);
    text::push_str(&mut out, c);
    text::string_from(out.as_slice())
}

/// Checks a page's signature against the trusted keys; see
/// `signature_status`.
pub fn verify_source_signature(source: &str, keyring: &PublicKeyring) -> (r: SignatureStatus)
    ensures
        r@ == signature_status(source@, keyring.keys()),
{
    proof {
        reveal_strlit("~~~~~");
        reveal_strlit("ed25519:");
    }
    let s = text::chars_of(source);
    let d = text::chars_of("~~~~~");
    let k = match text::find_sub(s.as_slice(), d.as_slice(), 0) {
        None => {
            return SignatureStatus::Unsigned;
        },
        Some(k) => k,
    };
    proof {
        text::lemma_find_from_bounds(s@, d@, 0);
    }
    assert(s@.len() == s.len());
    let meta = text::slice_of(s.as_slice(), k + 5, s.len());
    assert(meta@ =~= source@.skip(k + 5));
    let signer = match metadata_value_bounds(meta.as_slice(), text::chars_of("signed-by").as_slice()) {
        None => {
            return SignatureStatus::Unsigned;
        },
        Some((a, b)) => text::slice_of(meta.as_slice(), a, b),
    };
    let sv = match metadata_value_bounds(meta.as_slice(), text::chars_of("signature").as_slice()) {
        None => {
            return SignatureStatus::Invalid {
                reason: joined3("signed-by `", signer.as_slice(), "` is present without a signature"),
            };
        },
        Some((a, b)) => text::slice_of(meta.as_slice(), a, b),
    };
    if !text::starts_with(sv.as_slice(), text::chars_of("ed25519:").as_slice()) {
        return SignatureStatus::Invalid { reason: String::from_str("signature must use ed25519:<base64>") };
    }
    let key = match keyring.lookup(signer.as_slice()) {
        None => {
            return SignatureStatus::UnknownSigner { signer: text::string_from(signer.as_slice()) };
        },
        Some(key) => key,
    };
    let b64 = text::slice_of(sv.as_slice(), 8, sv.len());
    assert(b64@ =~= sv@.skip(8));
    let b64s = text::string_from(b64.as_slice());
    let bytes = match base64_decode(b64s.as_str()) {
        Err(e) => {
            return SignatureStatus::Invalid {
                reason: joined2("bad signature base64: ", e.as_str()),
            };
        },
        Ok(b) => b,
    };
    if bytes.len() != 64 {
        return SignatureStatus::Invalid { reason: String::from_str("ed25519 signatures must be 64 bytes") };
    }
    let payload = canonical_signature_payload(source);
    match ed25519_check(key.as_slice(), payload.as_str().as_bytes(), bytes.as_slice()) {
        None => SignatureStatus::Secure { signer: text::string_from(signer.as_slice()) },
        Some(e) => SignatureStatus::Invalid {
            reason: joined2("signature verification failed: ", e.as_str()),
        },
    }
}

} // verus!
