//! The capability model: per backend instance, which operations and
//! operation variants are supported, plus a few numeric limits.  A flag
//! being false makes the operator reject the corresponding call before any
//! backend work, never silently degrade.

use vstd::prelude::*;
use crate::error::Operation;

verus! {

/// An immutable set of boolean capability flags and numeric limits.
#[derive(Clone, Copy, PartialEq, Eq, Structural, Debug)]
pub struct Capability {
    pub stat: bool,
    pub stat_with_if_match: bool,
    pub stat_with_if_none_match: bool,
    pub read: bool,
    pub read_can_seek: bool,
    pub read_can_next: bool,
    pub read_with_range: bool,
    pub read_with_if_match: bool,
    pub read_with_if_none_match: bool,
    pub read_with_override_cache_control: bool,
    pub read_with_override_content_disposition: bool,
    pub read_with_override_content_type: bool,
    pub write: bool,
    pub write_can_multi: bool,
    pub write_can_append: bool,
    pub write_with_content_type: bool,
    pub write_with_content_disposition: bool,
    pub write_with_cache_control: bool,
    pub write_multi_max_size: u64,
    pub write_multi_min_size: u64,
    pub write_multi_align_size: u64,
    pub create_dir: bool,
    pub delete: bool,
    pub copy: bool,
    pub rename: bool,
    pub list: bool,
    pub list_with_limit: bool,
    pub list_with_start_after: bool,
    pub list_with_delimiter_slash: bool,
    pub list_without_delimiter: bool,
    pub presign: bool,
    pub presign_read: bool,
    pub presign_stat: bool,
    pub presign_write: bool,
    pub batch: bool,
    pub batch_delete: bool,
    pub batch_max_operations: u64,
    pub blocking: bool,
}

/// The flag that guards an operation as a whole.
pub open spec fn spec_supports(c: Capability, op: Operation) -> bool {
    match op {
        Operation::Stat => c.stat,
        Operation::Read => c.read,
        Operation::Write => c.write,
        Operation::Delete => c.delete,
        Operation::Copy => c.copy,
        Operation::Rename => c.rename,
        Operation::List => c.list,
        Operation::Presign => c.presign,
        Operation::Batch => c.batch,
    }
}

impl Capability {
    /// A capability with every flag cleared and every limit zero.
    pub fn none() -> (r: Capability)
        ensures
            forall|op: Operation| !spec_supports(r, op),
            !r.presign_read && !r.presign_stat && !r.presign_write,
    {
        Capability {
            stat: false,
            stat_with_if_match: false,
            stat_with_if_none_match: false,
            read: false,
            read_can_seek: false,
            read_can_next: false,
            read_with_range: false,
            read_with_if_match: false,
            read_with_if_none_match: false,
            read_with_override_cache_control: false,
            read_with_override_content_disposition: false,
            read_with_override_content_type: false,
            write: false,
            write_can_multi: false,
            write_can_append: false,
            write_with_content_type: false,
            write_with_content_disposition: false,
            write_with_cache_control: false,
            write_multi_max_size: 0,
            write_multi_min_size: 0,
            write_multi_align_size: 0,
            create_dir: false,
            delete: false,
            copy: false,
            rename: false,
            list: false,
            list_with_limit: false,
            list_with_start_after: false,
            list_with_delimiter_slash: false,
            list_without_delimiter: false,
            presign: false,
            presign_read: false,
            presign_stat: false,
            presign_write: false,
            batch: false,
            batch_delete: false,
            batch_max_operations: 0,
            blocking: false,
        }
    }

    /// Read-only query: is the operation supported at all?
    pub fn supports(&self, op: Operation) -> (r: bool)
        ensures
            r == spec_supports(*self, op),
    {
        match op {
            Operation::Stat => self.stat,
            Operation::Read => self.read,
            Operation::Write => self.write,
            Operation::Delete => self.delete,
            Operation::Copy => self.copy,
            Operation::Rename => self.rename,
            Operation::List => self.list,
            Operation::Presign => self.presign,
            Operation::Batch => self.batch,
        }
    }
}

/// A size limit as it crosses a host boundary whose integers are signed
/// 64-bit: values beyond the signed range saturate.
pub open spec fn spec_limit_field(v: u64) -> i64 {
    if v > i64::MAX as u64 {
        i64::MAX
    } else {
        v as i64
    }
}

/// Saturating conversion of a size limit into a signed 64-bit host field.
pub fn limit_field(v: u64) -> (r: i64)
    ensures
        r == spec_limit_field(v),
{
    if v > 0x7fff_ffff_ffff_ffff_u64 {
        i64::MAX
    } else {
        v as i64
    }
}

/// The fixed positional record a capability is serialized to for host
/// bindings: booleans as 0 or 1 and limits saturated to signed 64-bit,
/// in a stable public field order, stat and read variants first, then
/// write, then namespace management and list, then presign and batch.
pub open spec fn spec_capability_record(c: Capability) -> Seq<i64> {
    spec_record_stat_read(c) + spec_record_write(c) + spec_record_manage_list(c)
        + spec_record_presign_batch(c)
}

fn push_flag(rec: &mut Vec<i64>, flag: bool)
    ensures
        final(rec)@ == old(rec)@.push(if flag { 1i64 } else { 0i64 }),
{
    if flag {
        rec.push(1);
    } else {
        rec.push(0);
    }
}

/// The stat and read part of the record, indices 0 through 11.
pub open spec fn spec_record_stat_read(c: Capability) -> Seq<i64> {
    seq![
        if c.stat { 1i64 } else { 0i64 },
        if c.stat_with_if_match { 1i64 } else { 0i64 },
        if c.stat_with_if_none_match { 1i64 } else { 0i64 },
        if c.read { 1i64 } else { 0i64 },
        if c.read_can_seek { 1i64 } else { 0i64 },
        if c.read_can_next { 1i64 } else { 0i64 },
        if c.read_with_range { 1i64 } else { 0i64 },
        if c.read_with_if_match { 1i64 } else { 0i64 },
        if c.read_with_if_none_match { 1i64 } else { 0i64 },
        if c.read_with_override_cache_control { 1i64 } else { 0i64 },
        if c.read_with_override_content_disposition { 1i64 } else { 0i64 },
        if c.read_with_override_content_type { 1i64 } else { 0i64 },
    ]
}

/// The write part of the record, indices 12 through 20.
pub open spec fn spec_record_write(c: Capability) -> Seq<i64> {
    seq![
        if c.write { 1i64 } else { 0i64 },
        if c.write_can_multi { 1i64 } else { 0i64 },
        if c.write_can_append { 1i64 } else { 0i64 },
        if c.write_with_content_type { 1i64 } else { 0i64 },
        if c.write_with_content_disposition { 1i64 } else { 0i64 },
        if c.write_with_cache_control { 1i64 } else { 0i64 },
        spec_limit_field(c.write_multi_max_size),
        spec_limit_field(c.write_multi_min_size),
        spec_limit_field(c.write_multi_align_size),
    ]
}

/// The namespace-management and list part of the record, indices 21
/// through 29.
pub open spec fn spec_record_manage_list(c: Capability) -> Seq<i64> {
    seq![
        if c.create_dir { 1i64 } else { 0i64 },
        if c.delete { 1i64 } else { 0i64 },
        if c.copy { 1i64 } else { 0i64 },
        if c.rename { 1i64 } else { 0i64 },
        if c.list { 1i64 } else { 0i64 },
        if c.list_with_limit { 1i64 } else { 0i64 },
        if c.list_with_start_after { 1i64 } else { 0i64 },
        if c.list_with_delimiter_slash { 1i64 } else { 0i64 },
        if c.list_without_delimiter { 1i64 } else { 0i64 },
    ]
}

/// The presign, batch and blocking part of the record, indices 30
/// through 37.
pub open spec fn spec_record_presign_batch(c: Capability) -> Seq<i64> {
    seq![
        if c.presign { 1i64 } else { 0i64 },
        if c.presign_read { 1i64 } else { 0i64 },
        if c.presign_stat { 1i64 } else { 0i64 },
        if c.presign_write { 1i64 } else { 0i64 },
        if c.batch { 1i64 } else { 0i64 },
        if c.batch_delete { 1i64 } else { 0i64 },
        spec_limit_field(c.batch_max_operations),
        if c.blocking { 1i64 } else { 0i64 },
    ]
}

#[verifier::rlimit(100)]
fn push_stat_read(rec: &mut Vec<i64>, c: &Capability)
    ensures
        final(rec)@ == old(rec)@ + spec_record_stat_read(*c),
{
    push_flag(rec, c.stat);
    push_flag(rec, c.stat_with_if_match);
    push_flag(rec, c.stat_with_if_none_match);
    push_flag(rec, c.read);
    push_flag(rec, c.read_can_seek);
    push_flag(rec, c.read_can_next);
    push_flag(rec, c.read_with_range);
    push_flag(rec, c.read_with_if_match);
    push_flag(rec, c.read_with_if_none_match);
    push_flag(rec, c.read_with_override_cache_control);
    push_flag(rec, c.read_with_override_content_disposition);
    push_flag(rec, c.read_with_override_content_type);
    proof {
        assert(rec@ =~= old(rec)@ + spec_record_stat_read(*c));
    }
}

#[verifier::rlimit(100)]
fn push_write(rec: &mut Vec<i64>, c: &Capability)
    ensures
        final(rec)@ == old(rec)@ + spec_record_write(*c),
{
    push_flag(rec, c.write);
    push_flag(rec, c.write_can_multi);
    push_flag(rec, c.write_can_append);
    push_flag(rec, c.write_with_content_type);
    push_flag(rec, c.write_with_content_disposition);
    push_flag(rec, c.write_with_cache_control);
    rec.push(limit_field(c.write_multi_max_size));
    rec.push(limit_field(c.write_multi_min_size));
    rec.push(limit_field(c.write_multi_align_size));
    proof {
        assert(rec@ =~= old(rec)@ + spec_record_write(*c));
    }
}

#[verifier::rlimit(100)]
fn push_manage_list(rec: &mut Vec<i64>, c: &Capability)
    ensures
        final(rec)@ == old(rec)@ + spec_record_manage_list(*c),
{
    push_flag(rec, c.create_dir);
    push_flag(rec, c.delete);
    push_flag(rec, c.copy);
    push_flag(rec, c.rename);
    push_flag(rec, c.list);
    push_flag(rec, c.list_with_limit);
    push_flag(rec, c.list_with_start_after);
    push_flag(rec, c.list_with_delimiter_slash);
    push_flag(rec, c.list_without_delimiter);
    proof {
        assert(rec@ =~= old(rec)@ + spec_record_manage_list(*c));
    }
}

#[verifier::rlimit(100)]
fn push_presign_batch(rec: &mut Vec<i64>, c: &Capability)
    ensures
        final(rec)@ == old(rec)@ + spec_record_presign_batch(*c),
{
    push_flag(rec, c.presign);
    push_flag(rec, c.presign_read);
    push_flag(rec, c.presign_stat);
    push_flag(rec, c.presign_write);
    push_flag(rec, c.batch);
    push_flag(rec, c.batch_delete);
    rec.push(limit_field(c.batch_max_operations));
    push_flag(rec, c.blocking);
    proof {
        assert(rec@ =~= old(rec)@ + spec_record_presign_batch(*c));
    }
}

impl Capability {
    /// Serialize this capability to its fixed positional record.  The
    /// field order is a stable public contract for positional construction
    /// in host bindings.
    pub fn to_record(&self) -> (r: Vec<i64>)
        ensures
            r@ == spec_capability_record(*self),
    {
        let mut rec: Vec<i64> = Vec::new();
        push_stat_read(&mut rec, self);
        push_write(&mut rec, self);
        push_manage_list(&mut rec, self);
        push_presign_batch(&mut rec, self);
        proof {
            assert(rec@ =~= spec_capability_record(*self));
        }
        rec
    }
}

} // verus!
