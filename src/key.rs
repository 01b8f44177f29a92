use vstd::prelude::*;

verus! {

/// Width of one timeout bucket, in milliseconds.
pub const TIMEOUT_BUCKET_MS: u64 = 5000;

/// The largest timeout whose bucket still fits in a `u64`.
pub const MAX_TIMEOUT_MS: u64 = 18446744073709550000;

/// Label used when an emulation profile has no name of its own.
pub const DEFAULT_EMULATION_LABEL: &'static str = "chrome_142";

/// The bucket of a timeout: `max(1, ceil(timeout / 5000)) * 5000`.
pub open spec fn spec_bucket(timeout: nat) -> nat {
    let buckets = (timeout + 4999) / 5000;
    if buckets < 1 {
        5000
    } else {
        buckets * 5000
    }
}

/// Rounds a timeout up to the next multiple of [`TIMEOUT_BUCKET_MS`], never below one bucket.
pub fn bucket_timeout(timeout: u64) -> (r: u64)
    requires
        timeout <= MAX_TIMEOUT_MS,
    ensures
        r == spec_bucket(timeout as nat),
        r > 0,
        r % TIMEOUT_BUCKET_MS == 0,
        r >= timeout,
{
    let mut buckets: u64 = timeout / TIMEOUT_BUCKET_MS;
    if timeout % TIMEOUT_BUCKET_MS != 0 {
        buckets = buckets + 1;
    }
    if buckets < 1 {
        buckets = 1;
    }
    assert(buckets * 5000 <= MAX_TIMEOUT_MS) by (nonlinear_arith)
        requires
            buckets == 1 || (timeout % 5000 != 0 && buckets == timeout / 5000 + 1) || (timeout
                % 5000 == 0 && buckets == timeout / 5000),
            timeout <= MAX_TIMEOUT_MS,
    ;
    buckets * TIMEOUT_BUCKET_MS
}

/// The connection-relevant part of a request's configuration.
pub struct ClientKey {
    pub emulation: String,
    pub proxy: Option<String>,
    pub timeout_bucket: u64,
}

/// What a [`ClientKey`] denotes: its three fields as plain values.
pub struct KeyView {
    pub emulation: Seq<char>,
    pub proxy: Option<Seq<char>>,
    pub timeout_bucket: u64,
}

pub open spec fn proxy_view(p: Option<String>) -> Option<Seq<char>> {
    match p {
        Some(s) => Some(s@),
        None => None,
    }
}

impl View for ClientKey {
    type V = KeyView;

    open spec fn view(&self) -> KeyView {
        KeyView {
            emulation: self.emulation@,
            proxy: proxy_view(self.proxy),
            timeout_bucket: self.timeout_bucket,
        }
    }
}

/// The key that a configuration maps to.
pub open spec fn spec_key(label: Seq<char>, proxy: Option<Seq<char>>, timeout: nat) -> KeyView {
    KeyView { emulation: label, proxy: proxy, timeout_bucket: spec_bucket(timeout) as u64 }
}

/// Two configurations get the same key exactly when their labels and proxies are equal and
/// their timeouts fall in the same bucket; the bucket is a positive multiple of 5000.
pub proof fn lemma_key_determined(
    label1: Seq<char>,
    proxy1: Option<Seq<char>>,
    timeout1: nat,
    label2: Seq<char>,
    proxy2: Option<Seq<char>>,
    timeout2: nat,
)
    requires
        timeout1 <= MAX_TIMEOUT_MS,
        timeout2 <= MAX_TIMEOUT_MS,
    ensures
        (spec_key(label1, proxy1, timeout1) == spec_key(label2, proxy2, timeout2)) <==> (label1
            == label2 && proxy1 == proxy2 && spec_bucket(timeout1) == spec_bucket(timeout2)),
        spec_bucket(timeout1) > 0,
        spec_bucket(timeout1) % 5000 == 0,
{
    assert(spec_bucket(timeout1) <= MAX_TIMEOUT_MS) by (nonlinear_arith)
        requires
            timeout1 <= MAX_TIMEOUT_MS,
            spec_bucket(timeout1) == (if (timeout1 + 4999) / 5000 < 1 { 5000 } else { ((timeout1 + 4999) / 5000) * 5000 }),
    ;
    assert(spec_bucket(timeout2) <= MAX_TIMEOUT_MS) by (nonlinear_arith)
        requires
            timeout2 <= MAX_TIMEOUT_MS,
            spec_bucket(timeout2) == (if (timeout2 + 4999) / 5000 < 1 { 5000 } else { ((timeout2 + 4999) / 5000) * 5000 }),
    ;
    assert(spec_bucket(timeout1) % 5000 == 0) by (nonlinear_arith)
        requires
            spec_bucket(timeout1) == (if (timeout1 + 4999) / 5000 < 1 { 5000 } else { ((timeout1 + 4999) / 5000) * 5000 }),
    ;
}

fn same_proxy(a: &Option<String>, b: &Option<String>) -> (r: bool)
    ensures
        r == (proxy_view(*a) == proxy_view(*b)),
{
    match a {
        Some(x) => match b {
            Some(y) => {
                let same: bool = *x == *y;
                same
            },
            None => false,
        },
        None => b.is_none(),
    }
}

fn clone_proxy(p: &Option<String>) -> (r: Option<String>)
    ensures
        proxy_view(r) == proxy_view(*p),
{
    match p {
        Some(s) => Some(s.clone()),
        None => None,
    }
}

impl ClientKey {
    /// Derives the key of a configuration: the profile's label, the proxy verbatim, and the
    /// timeout's bucket.
    pub fn derive(label: &str, proxy: &Option<String>, timeout: u64) -> (r: ClientKey)
        requires
            timeout <= MAX_TIMEOUT_MS,
        ensures
            r@ == spec_key(label@, proxy_view(*proxy), timeout as nat),
    {
        ClientKey {
            emulation: label.to_owned(),
            proxy: clone_proxy(proxy),
            timeout_bucket: bucket_timeout(timeout),
        }
    }

    /// A copy with the same fields.
    pub fn duplicate(&self) -> (r: ClientKey)
        ensures
            r@ == self@,
    {
        ClientKey {
            emulation: self.emulation.clone(),
            proxy: clone_proxy(&self.proxy),
            timeout_bucket: self.timeout_bucket,
        }
    }

    /// Field-wise equality.
    pub fn same_as(&self, other: &ClientKey) -> (r: bool)
        ensures
            r == (self@ == other@),
    {
        self.emulation == other.emulation && same_proxy(&self.proxy, &other.proxy)
            && self.timeout_bucket == other.timeout_bucket
    }
}

impl PartialEq for ClientKey {
    fn eq(&self, other: &ClientKey) -> (r: bool) {
        self.same_as(other)
    }
}

impl vstd::std_specs::cmp::PartialEqSpecImpl for ClientKey {
    open spec fn obeys_eq_spec() -> bool {
        true
    }

    open spec fn eq_spec(&self, other: &ClientKey) -> bool {
        self@ == other@
    }
}

impl Eq for ClientKey {

}

/// The label of an emulation profile: the name it serialises to, or the default label.
pub open spec fn spec_label(name: Option<Seq<char>>) -> Seq<char> {
    match name {
        Some(n) => n,
        None => DEFAULT_EMULATION_LABEL@,
    }
}

/// Picks the label of an emulation profile from the name it serialised to, if any; a profile
/// without a name gets [`DEFAULT_EMULATION_LABEL`].
pub fn emulation_label(name: Option<String>) -> (r: String)
    ensures
        r@ == spec_label(proxy_view(name)),
{
    match name {
        Some(n) => n,
        None => DEFAULT_EMULATION_LABEL.to_owned(),
    }
}

} // verus!
