//! The durable state behind the broker: accounts, the message log and the
//! content-addressed image store, modelled as verified in-memory tables with
//! the invariants the schema promises.

use crate::crypto::{sha256, sha256_of};
use crate::msgpack::from_be32;
use vstd::prelude::*;

verus! {

/// One account row. The hash and salt are raw bytes here; the database
/// layer stores them base64-encoded in its text columns.
#[derive(Debug, Clone)]
pub struct AccountRow {
    pub user_id: i64,
    pub username: String,
    /// The 32-byte password hash.
    pub password: Vec<u8>,
    /// The 64-byte salt.
    pub salt: Vec<u8>,
    pub banned: bool,
    pub whitelisted: bool,
}

/// One message row; an image message has empty content and an image hash.
#[derive(Debug, Clone)]
pub struct MessageRow {
    pub sender_id: i64,
    pub sender: String,
    pub content: String,
    pub send_time: i64,
    pub image_hash: Option<i32>,
}

/// One stored image, keyed by the leading 32 bits of its SHA-256 digest.
#[derive(Debug, Clone)]
pub struct ImageRow {
    pub image_hash: i32,
    pub data: Vec<u8>,
}

/// The signed 32-bit value of the first four bytes of SHA-256 of the image
/// bytes, big endian.
pub open spec fn spec_image_hash(b: Seq<u8>) -> i32 {
    let n = from_be32(sha256_of(b).subrange(0, 4));
    if n >= 0x80000000 {
        (n - 0x100000000) as i32
    } else {
        n as i32
    }
}

/// The password hash: SHA-256 over the password's UTF-8 bytes followed by
/// the salt.
pub open spec fn spec_password_hash(pass: Seq<char>, salt: Seq<u8>) -> Seq<u8> {
    sha256_of(vstd::utf8::encode_utf8(pass) + salt)
}


impl AccountRow {
    /// Whether two rows carry the same values.
    pub open spec fn same_as(&self, o: AccountRow) -> bool {
        &&& self.user_id == o.user_id
        &&& self.username@ == o.username@
        &&& self.password@ == o.password@
        &&& self.salt@ == o.salt@
        &&& self.banned == o.banned
        &&& self.whitelisted == o.whitelisted
    }

    /// A field-for-field copy.
    pub fn duplicate(&self) -> (r: AccountRow)
        ensures
            self.same_as(r),
    {
        AccountRow {
            user_id: self.user_id,
            username: self.username.clone(),
            password: vstd::slice::slice_to_vec(self.password.as_slice()),
            salt: vstd::slice::slice_to_vec(self.salt.as_slice()),
            banned: self.banned,
            whitelisted: self.whitelisted,
        }
    }
}

impl MessageRow {
    /// A field-for-field copy.
    pub fn duplicate(&self) -> (r: MessageRow)
        ensures
            r == *self,
    {
        MessageRow {
            sender_id: self.sender_id,
            sender: self.sender.clone(),
            content: self.content.clone(),
            send_time: self.send_time,
            image_hash: self.image_hash,
        }
    }
}


/// The well-formedness predicates depend only on the component sequences,
/// so they carry over between stores with equal components.
proof fn lemma_accounts_wf_frame(a: Database, b: Database)
    requires
        a.accounts@ == b.accounts@,
        a.next_user_id == b.next_user_id,
        a.accounts_wf(),
    ensures
        b.accounts_wf(),
{
    assert forall|i: int, j: int| 0 <= i < j < b.accounts@.len() implies b.accounts@[i].username@
        != b.accounts@[j].username@ by {
        assert(b.accounts@[i] == a.accounts@[i] && b.accounts@[j] == a.accounts@[j]);
    }
    assert forall|i: int, j: int| 0 <= i < j < b.accounts@.len() implies b.accounts@[i].user_id
        != b.accounts@[j].user_id by {
        assert(b.accounts@[i] == a.accounts@[i] && b.accounts@[j] == a.accounts@[j]);
    }
    assert forall|i: int|
        0 <= i < b.accounts@.len() implies 0 < #[trigger] b.accounts@[i].user_id
        < b.next_user_id by {
        assert(b.accounts@[i] == a.accounts@[i]);
    }
    assert forall|i: int| 0 <= i < b.accounts@.len() implies (
    #[trigger] b.accounts@[i]).salt@.len() == 64 by {
        assert(b.accounts@[i] == a.accounts@[i]);
    }
    assert forall|i: int| 0 <= i < b.accounts@.len() implies b.accounts@[i].password@.len()
        == 32 by {
        assert(b.accounts@[i] == a.accounts@[i]);
    }
}

proof fn lemma_messages_wf_frame(a: Database, b: Database)
    requires
        a.messages@ == b.messages@,
        a.images@ == b.images@,
        a.messages_wf(),
    ensures
        b.messages_wf(),
{
    assert forall|i: int| 0 <= i < b.messages@.len() implies (#[trigger] b.messages@[i]).sender_id
        > 0 && b.messages@[i].send_time > 0 && (b.messages@[i].content@.len() > 0
        || b.messages@[i].image_hash is Some) by {
        assert(b.messages@[i] == a.messages@[i]);
    }
    assert forall|i: int| 0 <= i < b.messages@.len() implies ((
    #[trigger] b.messages@[i].image_hash) matches Some(h) ==> b.has_image(h)) by {
        assert(b.messages@[i] == a.messages@[i]);
        if b.messages@[i].image_hash is Some {
            let h = b.messages@[i].image_hash->0;
            assert(a.has_image(h));
            let j = choose|j: int| 0 <= j < a.images@.len() && a.images@[j].image_hash == h;
            assert(b.images@[j].image_hash == h);
        }
    }
}

proof fn lemma_images_wf_frame(a: Database, b: Database)
    requires
        a.images@ == b.images@,
        a.images_wf(),
    ensures
        b.images_wf(),
{
}

pub struct Database {
    pub accounts: Vec<AccountRow>,
    pub messages: Vec<MessageRow>,
    pub images: Vec<ImageRow>,
    pub next_user_id: i64,
}

impl Database {
    pub open spec fn has_image(&self, h: i32) -> bool {
        exists|i: int| 0 <= i < self.images@.len() && self.images@[i].image_hash == h
    }

    pub open spec fn has_user(&self, u: Seq<char>) -> bool {
        exists|i: int| 0 <= i < self.accounts@.len() && self.accounts@[i].username@ == u
    }

    /// Every account row carries a 32-byte hash, a 64-byte salt, and a
    /// fresh, unique identity.
    pub open spec fn accounts_wf(&self) -> bool {
        &&& forall|i: int, j: int|
            0 <= i < j < self.accounts@.len() ==> self.accounts@[i].username@
                != self.accounts@[j].username@
        &&& forall|i: int|
            0 <= i < self.accounts@.len() ==> 0 < #[trigger] self.accounts@[i].user_id
                < self.next_user_id
        &&& forall|i: int, j: int|
            0 <= i < j < self.accounts@.len() ==> self.accounts@[i].user_id
                != self.accounts@[j].user_id
        &&& forall|i: int|
            0 <= i < self.accounts@.len() ==> (#[trigger] self.accounts@[i]).salt@.len() == 64
        &&& forall|i: int|
            0 <= i < self.accounts@.len() ==> self.accounts@[i].password@.len() == 32
    }

    /// Every persisted message has a positive sender, a positive time, and
    /// either text or an image; referenced images exist; the log is ordered
    /// by send time.
    pub open spec fn messages_wf(&self) -> bool {
        &&& forall|i: int|
            0 <= i < self.messages@.len() ==> (#[trigger] self.messages@[i]).sender_id > 0
                && self.messages@[i].send_time > 0 && (self.messages@[i].content@.len() > 0
                || self.messages@[i].image_hash is Some)
        &&& forall|i: int|
            0 <= i < self.messages@.len() ==> ((#[trigger] self.messages@[i].image_hash) matches
                Some(h) ==> self.has_image(h))
        &&& forall|i: int, j: int|
            0 <= i < j < self.messages@.len() ==> self.messages@[i].send_time
                <= self.messages@[j].send_time
    }

    pub open spec fn images_wf(&self) -> bool {
        forall|i: int, j: int|
            0 <= i < j < self.images@.len() ==> self.images@[i].image_hash
                != self.images@[j].image_hash
    }

    pub open spec fn wf(&self) -> bool {
        &&& self.next_user_id >= 1
        &&& self.accounts_wf()
        &&& self.messages_wf()
        &&& self.images_wf()
    }

    /// An empty store.
    pub fn new() -> (r: Database)
        ensures
            r.wf(),
            r.accounts@.len() == 0,
            r.messages@.len() == 0,
            r.images@.len() == 0,
    {
        Database { accounts: Vec::new(), messages: Vec::new(), images: Vec::new(), next_user_id: 1 }
    }

    /// Looks an account up by name, returning a copy of its row.
    pub fn get_user(&self, username: &str) -> (r: Option<AccountRow>)
        ensures
            r is Some <==> self.has_user(username@),
            r matches Some(row) ==> (exists|i: int|
                0 <= i < self.accounts@.len() && (#[trigger] self.accounts@[i]).same_as(row))
                && row.username@ == username@,
    {
        let n = self.accounts.len();
        let mut i: usize = 0;
        while i < n
            invariant
                0 <= i <= n == self.accounts@.len(),
                forall|k: int| 0 <= k < i ==> self.accounts@[k].username@ != username@,
            decreases n - i,
        {
            if crate::utils::str_eq(self.accounts[i].username.as_str(), username) {
                let row = self.accounts[i].duplicate();
                assert(self.accounts@[i as int].same_as(row));
                return Some(row);
            }
            i += 1;
        }
        None
    }

    /// Creates an account with the next identifier; the hash and salt are
    /// stored base64-encoded. Returns the new user id.
    pub fn insert_user(&mut self, username: &str, pass_hash: &Vec<u8>, salt: &Vec<u8>) -> (r: i64)
        requires
            old(self).wf(),
            !old(self).has_user(username@),
            old(self).next_user_id < i64::MAX,
            pass_hash@.len() == 32,
            salt@.len() == 64,
        ensures
            final(self).wf(),
            r == old(self).next_user_id,
            final(self).next_user_id == old(self).next_user_id + 1,
            final(self).messages@ == old(self).messages@,
            final(self).images@ == old(self).images@,
            final(self).accounts@.len() == old(self).accounts@.len() + 1,
            final(self).accounts@.subrange(0, old(self).accounts@.len() as int) == old(
                self,
            ).accounts@,
            ({
                let row = final(self).accounts@.last();
                &&& row.user_id == old(self).next_user_id
                &&& row.username@ == username@
                &&& row.password@ == pass_hash@
                &&& row.salt@ == salt@
                &&& row.banned == false
                &&& row.whitelisted == false
            }),
            final(self).has_user(username@),
    {
        let id = self.next_user_id;
        let row = AccountRow {
            user_id: id,
            username: username.to_owned(),
            password: vstd::slice::slice_to_vec(pass_hash.as_slice()),
            salt: vstd::slice::slice_to_vec(salt.as_slice()),
            banned: false,
            whitelisted: false,
        };
        self.accounts.push(row);
        self.next_user_id = id + 1;
        assert(self.accounts@.subrange(0, old(self).accounts@.len() as int) =~= old(
            self,
        ).accounts@);
        assert(self.has_user(username@)) by {
            assert(self.accounts@[old(self).accounts@.len() as int].username@ == username@);
        }
        proof {
            lemma_messages_wf_frame(*old(self), *self);
            lemma_images_wf_frame(*old(self), *self);
            let m = self.accounts@;
            let o = old(self).accounts@;
            let nn = o.len() as int;
            assert forall|i: int, j: int| 0 <= i < j < m.len() implies m[i].username@
                != m[j].username@ by {
                if j < nn {
                    assert(m[i] == o[i] && m[j] == o[j]);
                } else {
                    assert(m[i] == o[i] && m[j].username@ == username@);
                    assert(!old(self).has_user(username@));
                }
            }
            assert forall|i: int| 0 <= i < m.len() implies 0 < #[trigger] m[i].user_id
                < self.next_user_id by {
                if i < nn {
                    assert(m[i] == o[i]);
                }
            }
            assert forall|i: int, j: int| 0 <= i < j < m.len() implies m[i].user_id
                != m[j].user_id by {
                if j < nn {
                    assert(m[i] == o[i] && m[j] == o[j]);
                } else {
                    assert(m[i] == o[i]);
                }
            }
            assert forall|i: int| 0 <= i < m.len() implies (#[trigger] m[i]).salt@.len()
                == 64 by {
                if i < nn {
                    assert(m[i] == o[i]);
                }
            }
            assert forall|i: int| 0 <= i < m.len() implies m[i].password@.len() == 32 by {
                if i < nn {
                    assert(m[i] == o[i]);
                }
            }
        }
        id
    }

    /// Appends a text message, keeping the log ordered by send time.
    pub fn insert_message_row(&mut self, row: MessageRow) -> (k: usize)
        requires
            old(self).wf(),
            row.sender_id > 0,
            row.send_time > 0,
            row.content@.len() > 0 || row.image_hash is Some,
            row.image_hash matches Some(h) ==> old(self).has_image(h),
        ensures
            final(self).wf(),
            final(self).accounts@ == old(self).accounts@,
            final(self).images@ == old(self).images@,
            final(self).next_user_id == old(self).next_user_id,
            k <= old(self).messages@.len(),
            final(self).messages@ == old(self).messages@.insert(k as int, row),
    {
        let mut k = self.messages.len();
        while k > 0 && self.messages[k - 1].send_time > row.send_time
            invariant
                0 <= k <= self.messages@.len(),
                forall|j: int|
                    k <= j < self.messages@.len() ==> self.messages@[j].send_time > row.send_time,
            decreases k,
        {
            k -= 1;
        }
        self.messages.insert(k, row);
        assert(self.messages@ == old(self).messages@.insert(k as int, row));
        proof {
            lemma_accounts_wf_frame(*old(self), *self);
            lemma_images_wf_frame(*old(self), *self);
            old(self).messages@.insert_ensures(k as int, row);
        }
        assert(self.messages_wf()) by {
            let m = self.messages@;
            let o = old(self).messages@;
            old(self).messages@.insert_ensures(k as int, row);
            assert forall|i: int| 0 <= i < m.len() implies (#[trigger] m[i]).sender_id > 0
                && m[i].send_time > 0 && (m[i].content@.len() > 0 || m[i].image_hash is Some) by {
                if i < k {
                    assert(m[i] == o[i]);
                } else if i > k {
                    assert(m[i] == o[i - 1]);
                }
            }
            assert forall|i: int| 0 <= i < m.len() implies ((#[trigger] m[i].image_hash) matches
                Some(h) ==> self.has_image(h)) by {
                if i < k {
                    assert(m[i] == o[i]);
                    assert(old(self).messages@[i].image_hash == m[i].image_hash);
                } else if i > k {
                    assert(m[i] == o[i - 1]);
                    assert(old(self).messages@[i - 1].image_hash == m[i].image_hash);
                } else {
                    assert(m[i] == row);
                }
                if m[i].image_hash is Some {
                    let h = m[i].image_hash->0;
                    assert(old(self).has_image(h));
                    let j = choose|j: int|
                        0 <= j < old(self).images@.len() && old(self).images@[j].image_hash == h;
                    assert(self.images@[j].image_hash == h);
                }
            }
            assert forall|i: int, j: int| 0 <= i < j < m.len() implies m[i].send_time
                <= m[j].send_time by {
                let a = if i < k {
                    o[i]
                } else if i == k {
                    row
                } else {
                    o[i - 1]
                };
                assert(m[i] == a);
                let b = if j < k {
                    o[j]
                } else if j == k {
                    row
                } else {
                    o[j - 1]
                };
                assert(m[j] == b);
            }
        }
        k
    }

    /// Computes the image hash of the given bytes.
    pub fn image_hash(data: &Vec<u8>) -> (r: i32)
        ensures
            r == spec_image_hash(data@),
    {
        let d = sha256(data.as_slice());
        let n: u32 = d[0] as u32 * 0x1000000 + d[1] as u32 * 0x10000 + d[2] as u32 * 0x100
            + d[3] as u32;
        assert(d@.subrange(0, 4) =~= seq![d@[0], d@[1], d@[2], d@[3]]);
        let r: i32 = if n >= 0x80000000 {
            ((n - 0x80000000) as i32) + i32::MIN
        } else {
            n as i32
        };
        assert(r == spec_image_hash(data@));
        r
    }

    /// Stores an image if its hash is not yet present; a second insertion of
    /// the same bytes leaves the store unchanged.
    pub fn insert_image(&mut self, data: &Vec<u8>) -> (h: i32)
        requires
            old(self).wf(),
        ensures
            final(self).wf(),
            h == spec_image_hash(data@),
            final(self).accounts@ == old(self).accounts@,
            final(self).messages@ == old(self).messages@,
            final(self).next_user_id == old(self).next_user_id,
            final(self).has_image(h),
            old(self).has_image(spec_image_hash(data@)) ==> final(self).images@ == old(
                self,
            ).images@,
            !old(self).has_image(spec_image_hash(data@)) ==> (final(self).images@.len() == old(
                self,
            ).images@.len() + 1 && final(self).images@.subrange(0, old(self).images@.len() as int)
                == old(self).images@ && final(self).images@.last().image_hash == spec_image_hash(
                data@,
            ) && final(self).images@.last().data@ == data@),
            final(self).images@.len() == old(self).images@.len() + (if old(self).has_image(
                spec_image_hash(data@),
            ) {
                0int
            } else {
                1int
            }),
            forall|g: i32| final(self).has_image(g) <==> (old(self).has_image(g) || g == h),
    {
        let h = Self::image_hash(data);
        let n = self.images.len();
        let mut i: usize = 0;
        while i < n
            invariant
                0 <= i <= n == self.images@.len(),
                forall|k: int| 0 <= k < i ==> self.images@[k].image_hash != h,
                h == spec_image_hash(data@),
                *self == *old(self),
                old(self).wf(),
            decreases n - i,
        {
            if self.images[i].image_hash == h {
                assert(self.has_image(h));
                return h;
            }
            i += 1;
        }
        let row = ImageRow { image_hash: h, data: vstd::slice::slice_to_vec(data.as_slice()) };
        self.images.push(row);
        assert(self.images@.subrange(0, old(self).images@.len() as int) =~= old(self).images@);
        proof {
            lemma_accounts_wf_frame(*old(self), *self);
            let m = self.images@;
            let o = old(self).images@;
            assert forall|a: int, b: int| 0 <= a < b < m.len() implies m[a].image_hash
                != m[b].image_hash by {
                if b < o.len() {
                    assert(m[a] == o[a] && m[b] == o[b]);
                } else {
                    assert(m[a] == o[a]);
                }
            }
            assert forall|i: int| 0 <= i < self.messages@.len() implies (
            #[trigger] self.messages@[i]).sender_id > 0 && self.messages@[i].send_time > 0 && (
            self.messages@[i].content@.len() > 0 || self.messages@[i].image_hash is Some) by {
                assert(self.messages@[i] == old(self).messages@[i]);
            }
            assert forall|i: int| 0 <= i < self.messages@.len() implies ((
            #[trigger] self.messages@[i].image_hash) matches Some(g) ==> self.has_image(g)) by {
                assert(self.messages@[i] == old(self).messages@[i]);
                if self.messages@[i].image_hash is Some {
                    let g = self.messages@[i].image_hash->0;
                    assert(old(self).has_image(g));
                    let j = choose|j: int| 0 <= j < o.len() && o[j].image_hash == g;
                    assert(m[j].image_hash == g);
                }
            }
        }
        assert(self.has_image(h)) by {
            assert(self.images@[old(self).images@.len() as int].image_hash == h);
        }
        assert forall|g: i32| self.has_image(g) <==> (old(self).has_image(g) || g
            == h) by {
            let m = self.images@;
            let o = old(self).images@;
            if self.has_image(g) {
                let i = choose|i: int| 0 <= i < m.len() && m[i].image_hash == g;
                if i < o.len() {
                    assert(o[i].image_hash == g);
                }
            }
            if old(self).has_image(g) {
                let i = choose|i: int| 0 <= i < o.len() && o[i].image_hash == g;
                assert(m[i].image_hash == g);
            }
        }
        h
    }

    /// The rows of the history slice: newest first, skipping `offset` rows
    /// from the newest, at most `count` rows, with `count` clamped to 64.
    pub fn fetch_messages(&self, offset: i64, count: i64) -> (r: Vec<MessageRow>)
        requires
            self.wf(),
        ensures
            ({
                let total = self.messages@.len() as int;
                let off = if offset < 0 { 0int } else { offset as int };
                let cnt = if count < 0 { 0int } else if count > 64 { 64int } else { count as int };
                let avail = if off >= total { 0int } else { total - off };
                let take = if cnt <= avail { cnt } else { avail };
                &&& r@.len() == take
                &&& forall|i: int|
                    0 <= i < take ==> r@[i] == self.messages@[total - 1 - off - i]
                &&& offset >= total ==> r@.len() == 0
            }),
    {
        let count: i64 = if count < 0 { 0 } else if count > 64 { 64 } else { count };
        let offset: i64 = if offset < 0 { 0 } else { offset };
        let total = self.messages.len();
        let mut r: Vec<MessageRow> = Vec::new();
        if offset as u64 >= total as u64 {
            return r;
        }
        let off = offset as usize;
        let avail = total - off;
        let take: usize = if (count as usize) <= avail { count as usize } else { avail };
        let mut i: usize = 0;
        while i < take
            invariant
                0 <= i <= take,
                off + take <= total == self.messages@.len(),
                r@.len() == i,
                forall|j: int| 0 <= j < i ==> r@[j] == self.messages@[total - 1 - off - j],
            decreases take - i,
        {
            r.push(self.messages[total - 1 - off - i].duplicate());
            assert(r@[i as int] == self.messages@[total - 1 - off - i]);
            i += 1;
        }
        r
    }

    /// Returns the bytes of a stored image.
    pub fn fetch_image(&self, hash: i32) -> (r: Option<Vec<u8>>)
        ensures
            r is Some <==> self.has_image(hash),
            r matches Some(v) ==> exists|i: int|
                0 <= i < self.images@.len() && self.images@[i].image_hash == hash && v@
                    == self.images@[i].data@,
    {
        let n = self.images.len();
        let mut i: usize = 0;
        while i < n
            invariant
                0 <= i <= n == self.images@.len(),
                forall|k: int| 0 <= k < i ==> self.images@[k].image_hash != hash,
            decreases n - i,
        {
            if self.images[i].image_hash == hash {
                return Some(vstd::slice::slice_to_vec(self.images[i].data.as_slice()));
            }
            i += 1;
        }
        None
    }

    /// Sets or clears the banned flag; a no-op when the account is unknown.
    /// Returns whether a row was updated.
    pub fn set_banned(&mut self, username: &str, switch: bool) -> (r: bool)
        requires
            old(self).wf(),
        ensures
            final(self).wf(),
            r == old(self).has_user(username@),
            final(self).messages@ == old(self).messages@,
            final(self).images@ == old(self).images@,
            final(self).next_user_id == old(self).next_user_id,
            final(self).accounts@.len() == old(self).accounts@.len(),
            forall|i: int|
                0 <= i < final(self).accounts@.len() ==> {
                    let o = old(self).accounts@[i];
                    let m = #[trigger] final(self).accounts@[i];
                    if o.username@ == username@ {
                        m == AccountRow { banned: switch, ..o }
                    } else {
                        m == o
                    }
                },
    {
        let n = self.accounts.len();
        let mut i: usize = 0;
        while i < n
            invariant
                0 <= i <= n == self.accounts@.len(),
                self.accounts@.len() == old(self).accounts@.len(),
                self.next_user_id == old(self).next_user_id,
                self.messages@ == old(self).messages@,
                self.images@ == old(self).images@,
                old(self).wf(),
                forall|k: int| 0 <= k < i ==> old(self).accounts@[k].username@ != username@,
                self.accounts@ == old(self).accounts@,
            decreases n - i,
        {
            if crate::utils::str_eq(self.accounts[i].username.as_str(), username) {
                let old_row = self.accounts.remove(i);
                let row = AccountRow { banned: switch, ..old_row };
                self.accounts.insert(i, row);
                proof {
                    old(self).accounts@.remove_ensures(i as int);
                    old(self).accounts@.remove(i as int).insert_ensures(i as int, row);
                }
                assert(self.accounts@ =~= old(self).accounts@.update(
                    i as int,
                    AccountRow { banned: switch, ..old(self).accounts@[i as int] },
                ));
                proof {
                    lemma_messages_wf_frame(*old(self), *self);
                    lemma_images_wf_frame(*old(self), *self);
                    let m = self.accounts@;
                    let o = old(self).accounts@;
                    assert forall|a: int, b: int| 0 <= a < b < m.len() implies m[a].username@
                        != m[b].username@ by {
                        assert(m[a].username@ == o[a].username@);
                        assert(m[b].username@ == o[b].username@);
                    }
                    assert forall|a: int, b: int| 0 <= a < b < m.len() implies m[a].user_id
                        != m[b].user_id by {
                        assert(m[a].user_id == o[a].user_id);
                        assert(m[b].user_id == o[b].user_id);
                    }
                    assert forall|a: int| 0 <= a < m.len() implies 0 < #[trigger] m[a].user_id
                        < self.next_user_id by {
                        assert(m[a].user_id == o[a].user_id);
                    }
                    assert forall|a: int| 0 <= a < m.len() implies (#[trigger] m[a]).salt@.len()
                        == 64 by {
                        assert(m[a].salt@ == o[a].salt@);
                    }
                    assert forall|a: int| 0 <= a < m.len() implies m[a].password@.len() == 32 by {
                        assert(m[a].password@ == o[a].password@);
                    }
                }
                assert forall|j: int| 0 <= j < self.accounts@.len() implies {
                    let o = old(self).accounts@[j];
                    let m = #[trigger] self.accounts@[j];
                    if o.username@ == username@ {
                        m == AccountRow { banned: switch, ..o }
                    } else {
                        m == o
                    }
                } by {
                    if j != i {
                        assert(self.accounts@[j] == old(self).accounts@[j]);
                    }
                }
                return true;
            }
            i += 1;
        }
        false
    }

    /// Sets or clears the whitelisted flag; a no-op when the account is
    /// unknown. Returns whether a row was updated.
    pub fn set_whitelisted(&mut self, username: &str, switch: bool) -> (r: bool)
        requires
            old(self).wf(),
        ensures
            final(self).wf(),
            r == old(self).has_user(username@),
            final(self).messages@ == old(self).messages@,
            final(self).images@ == old(self).images@,
            final(self).next_user_id == old(self).next_user_id,
            final(self).accounts@.len() == old(self).accounts@.len(),
            forall|i: int|
                0 <= i < final(self).accounts@.len() ==> {
                    let o = old(self).accounts@[i];
                    let m = #[trigger] final(self).accounts@[i];
                    if o.username@ == username@ {
                        m == AccountRow { whitelisted: switch, ..o }
                    } else {
                        m == o
                    }
                },
    {
        let n = self.accounts.len();
        let mut i: usize = 0;
        while i < n
            invariant
                0 <= i <= n == self.accounts@.len(),
                self.accounts@.len() == old(self).accounts@.len(),
                self.next_user_id == old(self).next_user_id,
                self.messages@ == old(self).messages@,
                self.images@ == old(self).images@,
                old(self).wf(),
                forall|k: int| 0 <= k < i ==> old(self).accounts@[k].username@ != username@,
                self.accounts@ == old(self).accounts@,
            decreases n - i,
        {
            if crate::utils::str_eq(self.accounts[i].username.as_str(), username) {
                let old_row = self.accounts.remove(i);
                let row = AccountRow { whitelisted: switch, ..old_row };
                self.accounts.insert(i, row);
                proof {
                    old(self).accounts@.remove_ensures(i as int);
                    old(self).accounts@.remove(i as int).insert_ensures(i as int, row);
                }
                assert(self.accounts@ =~= old(self).accounts@.update(
                    i as int,
                    AccountRow { whitelisted: switch, ..old(self).accounts@[i as int] },
                ));
                proof {
                    lemma_messages_wf_frame(*old(self), *self);
                    lemma_images_wf_frame(*old(self), *self);
                    let m = self.accounts@;
                    let o = old(self).accounts@;
                    assert forall|a: int, b: int| 0 <= a < b < m.len() implies m[a].username@
                        != m[b].username@ by {
                        assert(m[a].username@ == o[a].username@);
                        assert(m[b].username@ == o[b].username@);
                    }
                    assert forall|a: int, b: int| 0 <= a < b < m.len() implies m[a].user_id
                        != m[b].user_id by {
                        assert(m[a].user_id == o[a].user_id);
                        assert(m[b].user_id == o[b].user_id);
                    }
                    assert forall|a: int| 0 <= a < m.len() implies 0 < #[trigger] m[a].user_id
                        < self.next_user_id by {
                        assert(m[a].user_id == o[a].user_id);
                    }
                    assert forall|a: int| 0 <= a < m.len() implies (#[trigger] m[a]).salt@.len()
                        == 64 by {
                        assert(m[a].salt@ == o[a].salt@);
                    }
                    assert forall|a: int| 0 <= a < m.len() implies m[a].password@.len() == 32 by {
                        assert(m[a].password@ == o[a].password@);
                    }
                }
                assert forall|j: int| 0 <= j < self.accounts@.len() implies {
                    let o = old(self).accounts@[j];
                    let m = #[trigger] self.accounts@[j];
                    if o.username@ == username@ {
                        m == AccountRow { whitelisted: switch, ..o }
                    } else {
                        m == o
                    }
                } by {
                    if j != i {
                        assert(self.accounts@[j] == old(self).accounts@[j]);
                    }
                }
                return true;
            }
            i += 1;
        }
        false
    }
}

/// Rows that can seed a store: identities positive, below the maximum and
/// pairwise distinct, usernames pairwise distinct, hash and salt of the
/// stored sizes.
pub open spec fn rows_loadable(rows: Seq<AccountRow>) -> bool {
    &&& forall|i: int, j: int| 0 <= i < j < rows.len() ==> rows[i].username@ != rows[j].username@
    &&& forall|i: int, j: int| 0 <= i < j < rows.len() ==> rows[i].user_id != rows[j].user_id
    &&& forall|i: int| 0 <= i < rows.len() ==> 0 < (#[trigger] rows[i]).user_id < i64::MAX
    &&& forall|i: int| 0 <= i < rows.len() ==> (#[trigger] rows[i]).salt@.len() == 64
    &&& forall|i: int| 0 <= i < rows.len() ==> rows[i].password@.len() == 32
}

impl Database {
    /// Builds a store from previously persisted account rows, or refuses
    /// them: a well-formed store comes out exactly when the rows are
    /// loadable, with the next identifier just past the largest loaded one.
    pub fn from_rows(rows: Vec<AccountRow>) -> (r: Option<Database>)
        ensures
            r is Some <==> rows_loadable(rows@),
            r matches Some(db) ==> db.wf() && db.accounts@ == rows@ && db.messages@.len() == 0
                && db.images@.len() == 0,
    {
        let n = rows.len();
        let mut max_id: i64 = 0;
        let mut i: usize = 0;
        while i < n
            invariant
                0 <= i <= n == rows@.len(),
                0 <= max_id < i64::MAX,
                forall|k: int| 0 <= k < i ==> 0 < (#[trigger] rows@[k]).user_id < i64::MAX,
                forall|k: int| 0 <= k < i ==> (#[trigger] rows@[k]).salt@.len() == 64,
                forall|k: int| 0 <= k < i ==> rows@[k].password@.len() == 32,
                forall|k: int| 0 <= k < i ==> (#[trigger] rows@[k]).user_id <= max_id,
                forall|x: int, y: int|
                    0 <= x < y < i ==> rows@[x].username@ != rows@[y].username@,
                forall|x: int, y: int| 0 <= x < y < i ==> rows@[x].user_id != rows@[y].user_id,
            decreases n - i,
        {
            let row = &rows[i];
            if !(row.user_id > 0 && row.user_id < i64::MAX && row.salt.len() == 64
                && row.password.len() == 32) {
                return None;
            }
            let mut j: usize = 0;
            while j < i
                invariant
                    0 <= j <= i < n == rows@.len(),
                    forall|k: int|
                        0 <= k < j ==> rows@[k].username@ != rows@[i as int].username@,
                    forall|k: int| 0 <= k < j ==> rows@[k].user_id != rows@[i as int].user_id,
                decreases i - j,
            {
                if crate::utils::str_eq(rows[j].username.as_str(), rows[i].username.as_str()) {
                    return None;
                }
                if rows[j].user_id == rows[i].user_id {
                    return None;
                }
                j += 1;
            }
            if row.user_id > max_id {
                max_id = row.user_id;
            }
            i += 1;
        }
        let db = Database {
            accounts: rows,
            messages: Vec::new(),
            images: Vec::new(),
            next_user_id: max_id + 1,
        };
        Some(db)
    }
}

/// Hashes a password with a salt: SHA-256 over the password bytes followed
/// by the salt bytes. The result is always 32 bytes, and it is a function of
/// the two inputs alone.
pub fn hash_password(pass: &str, salt: &Vec<u8>) -> (r: Vec<u8>)
    ensures
        r@ == spec_password_hash(pass@, salt@),
        r@.len() == 32,
{
    let mut buf: Vec<u8> = Vec::new();
    buf.extend_from_slice(pass.as_bytes());
    buf.extend_from_slice(salt.as_slice());
    assert(buf@ =~= vstd::utf8::encode_utf8(pass@) + salt@);
    sha256(buf.as_slice())
}

} // verus!
