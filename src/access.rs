use vstd::prelude::*;

verus! {

/// An IP address as a number: an IPv4 address in the low 32 bits, or an
/// IPv6 address.
#[derive(Debug, Clone, Copy, PartialEq, Eq, Structural)]
pub struct IpKey {
    pub v6: bool,
    pub bits: u128,
}

/// Which clients may read and which may write. Loopback clients may do
/// both; listed writers may do both; other clients may read when the read
/// list is empty or lists them, and may not write.
#[derive(Debug)]
pub struct IpFilter {
    pub allowed_read: Vec<IpKey>,
    pub allowed_write: Vec<IpKey>,
}

/// The rule of access for a client.
pub open spec fn access_allowed(
    read: Seq<IpKey>,
    write: Seq<IpKey>,
    ip: IpKey,
    loopback: bool,
    is_write: bool,
) -> bool {
    if loopback || write.contains(ip) {
        true
    } else if is_write {
        false
    } else {
        read.len() == 0 || read.contains(ip)
    }
}

fn listed(list: &Vec<IpKey>, ip: IpKey) -> (r: bool)
    ensures
        r == list@.contains(ip),
{
    let mut i: usize = 0;
    while i < list.len()
        invariant
            i <= list@.len(),
            forall|j: int| 0 <= j < i ==> list@[j] != ip,
        decreases list.len() - i,
    {
        if list[i] == ip {
            assert(list@[i as int] == ip);
            return true;
        }
        i = i + 1;
    }
    false
}

impl IpFilter {
    /// A filter with these read and write lists.
    pub fn new(allowed_read: Vec<IpKey>, allowed_write: Vec<IpKey>) -> (r: IpFilter)
        ensures
            r.allowed_read == allowed_read,
            r.allowed_write == allowed_write,
    {
        IpFilter { allowed_read, allowed_write }
    }

    /// Whether a client at `ip` (a loopback address when `loopback`) may
    /// make a request, a writing one (POST, PUT, DELETE) when `is_write`.
    pub fn is_allowed(&self, ip: IpKey, loopback: bool, is_write: bool) -> (r: bool)
        ensures
            r == access_allowed(self.allowed_read@, self.allowed_write@, ip, loopback, is_write),
    {
        if loopback {
            return true;
        }
        if listed(&self.allowed_write, ip) {
            return true;
        }
        if is_write {
            false
        } else {
            self.allowed_read.len() == 0 || listed(&self.allowed_read, ip)
        }
    }
}

} // verus!
