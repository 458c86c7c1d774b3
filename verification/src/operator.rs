//! The operator: the primary façade over one configured backend wrapped
//! in its layer stack.  Every call validates the path, checks the
//! required capability flag — failing fast with `Unsupported` before any
//! backend work — and only then dispatches through the layers.

use vstd::prelude::*;
use vstd::slice::slice_to_vec;
use crate::backend::OpOutput;
use crate::backend::OpRequest;
use crate::backend::RawEntry;
use crate::backend::spec_clamped;
use crate::backend::spec_fault_error;
use crate::backend::spec_listing;
use crate::backend::spec_meta_of;
use crate::backend::spec_page_stop;
use crate::backend::Obj;
use crate::buffer::Buffer;
use crate::capability::Capability;
use crate::error::ErrorKind;
use crate::error::OpError;
use crate::error::Operation;
use crate::layers::lemma_stack_read_only;
use crate::layers::lemma_stack_single_attempt;
use crate::layers::Stack;
use crate::metadata::Entry;
use crate::metadata::Metadata;
use crate::metadata::Metakey;
use crate::metadata::RawMeta;
use crate::metadata::spec_assemble;
use crate::presign::PresignOperation;
use crate::presign::PresignedRequest;
use crate::presign::spec_header_map;
use crate::presign::spec_method_for;

verus! {

/// A well-formed path: non-empty and relative (no leading slash).
pub open spec fn spec_valid_path(p: Seq<u8>) -> bool {
    p.len() > 0 && p[0] != 47u8
}

/// A path that denotes an object, not a directory.
pub open spec fn spec_file_path(p: Seq<u8>) -> bool {
    spec_valid_path(p) && p.last() != 47u8
}

/// A prefix a listing may be asked for: the root, or a directory path.
pub open spec fn spec_list_prefix(p: Seq<u8>) -> bool {
    p.len() == 0 || (spec_valid_path(p) && p.last() == 47u8)
}

/// Whether a path is well-formed.
pub fn valid_path(p: &[u8]) -> (r: bool)
    ensures
        r == spec_valid_path(p@),
{
    p.len() > 0 && p[0] != 47
}

/// Whether a path denotes an object, not a directory.
pub fn file_path(p: &[u8]) -> (r: bool)
    ensures
        r == spec_file_path(p@),
{
    valid_path(p) && p[p.len() - 1] != 47
}

/// Whether a prefix may be listed.
pub fn list_prefix(p: &[u8]) -> (r: bool)
    ensures
        r == spec_list_prefix(p@),
{
    p.len() == 0 || (valid_path(p) && p[p.len() - 1] == 47)
}

/// The capability flag a presign kind needs beside `presign` itself.
pub open spec fn spec_presign_flag(c: Capability, op: PresignOperation) -> bool {
    match op {
        PresignOperation::Stat => c.presign_stat,
        PresignOperation::Read => c.presign_read,
        PresignOperation::Write => c.presign_write,
    }
}

fn presign_flag(c: &Capability, op: PresignOperation) -> (r: bool)
    ensures
        r == spec_presign_flag(*c, op),
{
    match op {
        PresignOperation::Stat => c.presign_stat,
        PresignOperation::Read => c.presign_read,
        PresignOperation::Write => c.presign_write,
    }
}

/// Scheme, root, human name and the two capability views of an operator:
/// what the operation set can express after layering ("full") and what
/// the concrete backend supports natively.
#[derive(Clone, PartialEq, Eq, Debug)]
pub struct OperatorInfo {
    pub scheme: String,
    pub root: String,
    pub name: String,
    pub full_capability: Capability,
    pub native_capability: Capability,
}

/// The primary façade: a handle bound to one backend configuration,
/// exposing the uniform operation set and enforcing capability checks
/// before dispatch.
pub struct Operator {
    pub stack: Stack,
    pub scheme: String,
    pub root: String,
    pub name: String,
}

/// The error an operator raises before dispatch.
pub open spec fn spec_gate_error(kind: ErrorKind, op: Operation) -> OpError {
    OpError { kind, op, temporary: false }
}

impl Operator {
    /// The stack below is well-formed.
    pub open spec fn wf(&self) -> bool {
        self.stack.wf()
    }

    /// The capability public calls are checked against.  No layer here
    /// emulates an operation the backend lacks, so this equals the
    /// backend's native capability.
    pub open spec fn capability(&self) -> Capability {
        self.stack.backend.capability
    }

    /// The stored contents, as a map from path to bytes.
    pub open spec fn store(&self) -> Map<Seq<u8>, Seq<u8>> {
        self.stack.backend.store()
    }

    /// The stored objects in storage order.
    pub open spec fn objects(&self) -> Seq<Obj> {
        self.stack.backend.objects@
    }

    /// How many calls the backend has observed.
    pub open spec fn backend_calls(&self) -> u64 {
        self.stack.backend.calls
    }

    /// How many scripted faults remain in the backend.
    pub open spec fn faults(&self) -> u64 {
        self.stack.backend.faults
    }

    /// The identity and configuration an operation never changes.
    pub open spec fn same_shell(pre: Operator, post: Operator) -> bool {
        &&& post.scheme == pre.scheme
        &&& post.root == pre.root
        &&& post.name == pre.name
        &&& post.stack.layers == pre.stack.layers
        &&& post.stack.backend.capability == pre.stack.backend.capability
        &&& post.stack.backend.page_size == pre.stack.backend.page_size
        &&& post.stack.backend.endpoint == pre.stack.backend.endpoint
        &&& post.stack.backend.signing_headers == pre.stack.backend.signing_headers
    }

    /// Bind an operator to a configured, layered backend.
    pub fn new(stack: Stack, scheme: String, root: String, name: String) -> (r: Operator)
        requires
            stack.wf(),
        ensures
            r.wf(),
            r.stack == stack,
            r.scheme == scheme,
            r.root == root,
            r.name == name,
    {
        Operator { stack, scheme, root, name }
    }

    /// Report scheme, root, name, and both capability views.
    pub fn info(&self) -> (r: OperatorInfo)
        ensures
            r.scheme == self.scheme,
            r.root == self.root,
            r.name == self.name,
            r.full_capability == self.capability(),
            r.native_capability == self.capability(),
    {
        OperatorInfo {
            scheme: self.scheme.clone(),
            root: self.root.clone(),
            name: self.name.clone(),
            full_capability: self.stack.backend.capability,
            native_capability: self.stack.backend.capability,
        }
    }

    /// Describe one object.  An ill-formed path is rejected as
    /// `InvalidInput` and a missing `stat` capability as `Unsupported`,
    /// both without any backend call.  A success describes exactly the
    /// stored object, projected under the metakey mask; with no scripted
    /// fault the call succeeds if and only if the path is stored, and a
    /// missing path is `NotFound`.
    pub fn stat(&mut self, path: &[u8], mk: &Metakey) -> (r: Result<Metadata, OpError>)
        requires
            old(self).wf(),
        ensures
            final(self).wf(),
            Operator::same_shell(*old(self), *final(self)),
            !spec_valid_path(path@) ==> r == Result::<Metadata, OpError>::Err(
                spec_gate_error(ErrorKind::InvalidInput, Operation::Stat),
            ) && *final(self) == *old(self),
            spec_valid_path(path@) && !old(self).capability().stat ==> r == Result::<
                Metadata,
                OpError,
            >::Err(spec_gate_error(ErrorKind::Unsupported, Operation::Stat)) && *final(self)
                == *old(self),
            spec_valid_path(path@) && old(self).capability().stat ==> {
                &&& final(self).objects() == old(self).objects()
                &&& match r {
                    Ok(m) => old(self).store().contains_key(path@) && m == spec_assemble(
                        spec_meta_of(path@, old(self).store()[path@]),
                        *mk,
                    ),
                    Err(_) => true,
                }
                &&& (old(self).faults() == 0 && old(self).store().contains_key(path@)) ==> r
                    == Result::<Metadata, OpError>::Ok(
                    spec_assemble(spec_meta_of(path@, old(self).store()[path@]), *mk),
                )
                &&& (old(self).faults() == 0 && !old(self).store().contains_key(path@)) ==> r
                    == Result::<Metadata, OpError>::Err(
                    spec_gate_error(ErrorKind::NotFound, Operation::Stat),
                )
            },
    {
        if !valid_path(path) {
            return Err(OpError::new(ErrorKind::InvalidInput, Operation::Stat, false));
        }
        if !self.stack.backend.capability.stat {
            return Err(OpError::new(ErrorKind::Unsupported, Operation::Stat, false));
        }
        let req = OpRequest::Stat { path: slice_to_vec(path) };
        let out = self.stack.dispatch(&req);
        proof {
            lemma_stack_read_only(
                old(self).stack.layers@,
                0,
                old(self).stack.backend,
                req,
                self.stack.backend,
                out,
            );
        }
        match out {
            Ok(OpOutput::Meta(raw)) => Ok(Metadata::assemble(&raw, mk)),
            Ok(_) => {
                proof {
                    assert(false);
                }
                Err(OpError::new(ErrorKind::Unexpected, Operation::Stat, false))
            },
            Err(e) => Err(e),
        }
    }

    /// Read one object's bytes.  An ill-formed path is `InvalidInput`, a
    /// directory path `IsADirectory`, a missing `read` capability
    /// `Unsupported` — each without any backend call.  A success carries
    /// exactly the stored bytes; with no scripted fault the call succeeds
    /// if and only if the path is stored.
    pub fn read(&mut self, path: &[u8]) -> (r: Result<Buffer, OpError>)
        requires
            old(self).wf(),
        ensures
            final(self).wf(),
            Operator::same_shell(*old(self), *final(self)),
            !spec_valid_path(path@) ==> r == Result::<Buffer, OpError>::Err(
                spec_gate_error(ErrorKind::InvalidInput, Operation::Read),
            ) && *final(self) == *old(self),
            spec_valid_path(path@) && !spec_file_path(path@) ==> r == Result::<Buffer, OpError>::Err(
                spec_gate_error(ErrorKind::IsADirectory, Operation::Read),
            ) && *final(self) == *old(self),
            spec_file_path(path@) && !old(self).capability().read ==> r == Result::<
                Buffer,
                OpError,
            >::Err(spec_gate_error(ErrorKind::Unsupported, Operation::Read)) && *final(self)
                == *old(self),
            spec_file_path(path@) && old(self).capability().read ==> {
                &&& final(self).objects() == old(self).objects()
                &&& match r {
                    Ok(buf) => old(self).store().contains_key(path@) && buf.view() == old(
                        self,
                    ).store()[path@],
                    Err(_) => true,
                }
                &&& (old(self).faults() == 0 && old(self).store().contains_key(path@)) ==> r
                    is Ok
                &&& (old(self).faults() == 0 && !old(self).store().contains_key(path@)) ==> r
                    == Result::<Buffer, OpError>::Err(
                    spec_gate_error(ErrorKind::NotFound, Operation::Read),
                )
            },
    {
        if !valid_path(path) {
            return Err(OpError::new(ErrorKind::InvalidInput, Operation::Read, false));
        }
        if !file_path(path) {
            return Err(OpError::new(ErrorKind::IsADirectory, Operation::Read, false));
        }
        if !self.stack.backend.capability.read {
            return Err(OpError::new(ErrorKind::Unsupported, Operation::Read, false));
        }
        let req = OpRequest::Read { path: slice_to_vec(path) };
        let out = self.stack.dispatch(&req);
        proof {
            lemma_stack_read_only(
                old(self).stack.layers@,
                0,
                old(self).stack.backend,
                req,
                self.stack.backend,
                out,
            );
        }
        match out {
            Ok(OpOutput::Bytes(d)) => Ok(Buffer::new(d)),
            Ok(_) => {
                proof {
                    assert(false);
                }
                Err(OpError::new(ErrorKind::Unexpected, Operation::Read, false))
            },
            Err(e) => Err(e),
        }
    }

    /// Read a byte range of one object.  The same gates as a whole-object
    /// read apply, and a backend without range reads is `Unsupported`
    /// before any backend call.  A success carries exactly the requested
    /// slice of the stored bytes; a range that does not lie inside the
    /// object is `InvalidInput`.
    pub fn read_range(&mut self, path: &[u8], offset: usize, len: usize) -> (r: Result<
        Buffer,
        OpError,
    >)
        requires
            old(self).wf(),
        ensures
            final(self).wf(),
            Operator::same_shell(*old(self), *final(self)),
            !spec_valid_path(path@) ==> r == Result::<Buffer, OpError>::Err(
                spec_gate_error(ErrorKind::InvalidInput, Operation::Read),
            ) && *final(self) == *old(self),
            spec_valid_path(path@) && !spec_file_path(path@) ==> r == Result::<Buffer, OpError>::Err(
                spec_gate_error(ErrorKind::IsADirectory, Operation::Read),
            ) && *final(self) == *old(self),
            spec_file_path(path@) && !(old(self).capability().read && old(
                self,
            ).capability().read_with_range) ==> r == Result::<Buffer, OpError>::Err(
                spec_gate_error(ErrorKind::Unsupported, Operation::Read),
            ) && *final(self) == *old(self),
            spec_file_path(path@) && old(self).capability().read && old(
                self,
            ).capability().read_with_range ==> {
                &&& final(self).objects() == old(self).objects()
                &&& match r {
                    Ok(buf) => {
                        &&& old(self).store().contains_key(path@)
                        &&& offset + len <= old(self).store()[path@].len()
                        &&& buf.view() == old(self).store()[path@].subrange(
                            offset as int,
                            offset + len,
                        )
                    },
                    Err(_) => true,
                }
                &&& (old(self).faults() == 0 && old(self).store().contains_key(path@) && offset
                    + len <= old(self).store()[path@].len()) ==> (r is Ok)
                &&& (old(self).faults() == 0 && old(self).store().contains_key(path@) && offset
                    + len > old(self).store()[path@].len()) ==> r == Result::<Buffer, OpError>::Err(
                    spec_gate_error(ErrorKind::InvalidInput, Operation::Read),
                )
                &&& (old(self).faults() == 0 && !old(self).store().contains_key(path@)) ==> r
                    == Result::<Buffer, OpError>::Err(
                    spec_gate_error(ErrorKind::NotFound, Operation::Read),
                )
            },
    {
        if !valid_path(path) {
            return Err(OpError::new(ErrorKind::InvalidInput, Operation::Read, false));
        }
        if !file_path(path) {
            return Err(OpError::new(ErrorKind::IsADirectory, Operation::Read, false));
        }
        if !(self.stack.backend.capability.read && self.stack.backend.capability.read_with_range) {
            return Err(OpError::new(ErrorKind::Unsupported, Operation::Read, false));
        }
        let req = OpRequest::Read { path: slice_to_vec(path) };
        let out = self.stack.dispatch(&req);
        proof {
            lemma_stack_read_only(
                old(self).stack.layers@,
                0,
                old(self).stack.backend,
                req,
                self.stack.backend,
                out,
            );
        }
        match out {
            Ok(OpOutput::Bytes(d)) => {
                if offset > d.len() || len > d.len() - offset {
                    return Err(OpError::new(ErrorKind::InvalidInput, Operation::Read, false));
                }
                let mut piece: Vec<u8> = Vec::new();
                let end = offset + len;
                proof {
                    assert(piece@ =~= d@.subrange(offset as int, offset as int));
                }
                for j in offset..end
                    invariant
                        end == offset + len <= d@.len(),
                        offset <= j <= end,
                        piece@ == d@.subrange(offset as int, j as int),
                {
                    piece.push(d[j]);
                    proof {
                        assert(d@.subrange(offset as int, j + 1) =~= d@.subrange(
                            offset as int,
                            j as int,
                        ).push(d@[j as int]));
                    }
                }
                Ok(Buffer::new(piece))
            },
            Ok(_) => {
                proof {
                    assert(false);
                }
                Err(OpError::new(ErrorKind::Unexpected, Operation::Read, false))
            },
            Err(e) => Err(e),
        }
    }

    /// Store bytes under a path, replacing what was there.  An ill-formed
    /// path is `InvalidInput`, a directory path `IsADirectory`, a missing
    /// `write` capability `Unsupported` — each without any backend call.
    /// Otherwise the outcome is exact: a remaining scripted fault fails
    /// the call and touches nothing; else the store now maps the path to
    /// the bytes.
    pub fn write(&mut self, path: &[u8], data: &[u8]) -> (r: Result<(), OpError>)
        requires
            old(self).wf(),
        ensures
            final(self).wf(),
            Operator::same_shell(*old(self), *final(self)),
            !spec_valid_path(path@) ==> r == Result::<(), OpError>::Err(
                spec_gate_error(ErrorKind::InvalidInput, Operation::Write),
            ) && *final(self) == *old(self),
            spec_valid_path(path@) && !spec_file_path(path@) ==> r == Result::<(), OpError>::Err(
                spec_gate_error(ErrorKind::IsADirectory, Operation::Write),
            ) && *final(self) == *old(self),
            spec_file_path(path@) && !old(self).capability().write ==> r == Result::<
                (),
                OpError,
            >::Err(spec_gate_error(ErrorKind::Unsupported, Operation::Write)) && *final(self)
                == *old(self),
            spec_file_path(path@) && old(self).capability().write ==> if old(self).faults() > 0 {
                &&& r == Result::<(), OpError>::Err(
                    spec_fault_error(old(self).stack.backend, Operation::Write),
                )
                &&& final(self).objects() == old(self).objects()
                &&& final(self).faults() == old(self).faults() - 1
            } else {
                &&& r == Result::<(), OpError>::Ok(())
                &&& final(self).store() == old(self).store().insert(path@, data@)
            },
    {
        if !valid_path(path) {
            return Err(OpError::new(ErrorKind::InvalidInput, Operation::Write, false));
        }
        if !file_path(path) {
            return Err(OpError::new(ErrorKind::IsADirectory, Operation::Write, false));
        }
        if !self.stack.backend.capability.write {
            return Err(OpError::new(ErrorKind::Unsupported, Operation::Write, false));
        }
        let req = OpRequest::Write { path: slice_to_vec(path), data: slice_to_vec(data) };
        let out = self.stack.dispatch(&req);
        proof {
            lemma_stack_single_attempt(
                old(self).stack.layers@,
                0,
                old(self).stack.backend,
                req,
                self.stack.backend,
                out,
            );
        }
        match out {
            Ok(_) => Ok(()),
            Err(e) => Err(e),
        }
    }

    /// Remove the object under a path, if any; deleting a missing path
    /// succeeds.  An ill-formed path is `InvalidInput` and a missing
    /// `delete` capability `Unsupported`, both without any backend call.
    pub fn delete(&mut self, path: &[u8]) -> (r: Result<(), OpError>)
        requires
            old(self).wf(),
        ensures
            final(self).wf(),
            Operator::same_shell(*old(self), *final(self)),
            !spec_valid_path(path@) ==> r == Result::<(), OpError>::Err(
                spec_gate_error(ErrorKind::InvalidInput, Operation::Delete),
            ) && *final(self) == *old(self),
            spec_valid_path(path@) && !old(self).capability().delete ==> r == Result::<
                (),
                OpError,
            >::Err(spec_gate_error(ErrorKind::Unsupported, Operation::Delete)) && *final(self)
                == *old(self),
            spec_valid_path(path@) && old(self).capability().delete ==> if old(self).faults() > 0 {
                &&& r == Result::<(), OpError>::Err(
                    spec_fault_error(old(self).stack.backend, Operation::Delete),
                )
                &&& final(self).objects() == old(self).objects()
                &&& final(self).faults() == old(self).faults() - 1
            } else {
                &&& r == Result::<(), OpError>::Ok(())
                &&& final(self).store() == old(self).store().remove(path@)
            },
    {
        if !valid_path(path) {
            return Err(OpError::new(ErrorKind::InvalidInput, Operation::Delete, false));
        }
        if !self.stack.backend.capability.delete {
            return Err(OpError::new(ErrorKind::Unsupported, Operation::Delete, false));
        }
        let req = OpRequest::Delete { path: slice_to_vec(path) };
        let out = self.stack.dispatch(&req);
        proof {
            lemma_stack_single_attempt(
                old(self).stack.layers@,
                0,
                old(self).stack.backend,
                req,
                self.stack.backend,
                out,
            );
        }
        match out {
            Ok(_) => Ok(()),
            Err(e) => Err(e),
        }
    }

    /// Copy an object to a new path, overwriting the destination.  This
    /// backend copies natively; no read-write-delete emulation is
    /// attempted, so a missing `copy` capability is `Unsupported` before
    /// any backend call.
    pub fn copy(&mut self, from: &[u8], to: &[u8]) -> (r: Result<(), OpError>)
        requires
            old(self).wf(),
        ensures
            final(self).wf(),
            Operator::same_shell(*old(self), *final(self)),
            !(spec_file_path(from@) && spec_file_path(to@)) ==> r == Result::<(), OpError>::Err(
                spec_gate_error(ErrorKind::InvalidInput, Operation::Copy),
            ) && *final(self) == *old(self),
            spec_file_path(from@) && spec_file_path(to@) && !old(self).capability().copy ==> r
                == Result::<(), OpError>::Err(
                spec_gate_error(ErrorKind::Unsupported, Operation::Copy),
            ) && *final(self) == *old(self),
            spec_file_path(from@) && spec_file_path(to@) && old(self).capability().copy ==> if old(
                self,
            ).faults() > 0 {
                &&& r == Result::<(), OpError>::Err(
                    spec_fault_error(old(self).stack.backend, Operation::Copy),
                )
                &&& final(self).objects() == old(self).objects()
                &&& final(self).faults() == old(self).faults() - 1
            } else if old(self).store().contains_key(from@) {
                &&& r == Result::<(), OpError>::Ok(())
                &&& final(self).store() == old(self).store().insert(
                    to@,
                    old(self).store()[from@],
                )
            } else {
                &&& r == Result::<(), OpError>::Err(
                    spec_gate_error(ErrorKind::NotFound, Operation::Copy),
                )
                &&& final(self).objects() == old(self).objects()
            },
    {
        if !(file_path(from) && file_path(to)) {
            return Err(OpError::new(ErrorKind::InvalidInput, Operation::Copy, false));
        }
        if !self.stack.backend.capability.copy {
            return Err(OpError::new(ErrorKind::Unsupported, Operation::Copy, false));
        }
        let req = OpRequest::Copy { from: slice_to_vec(from), to: slice_to_vec(to) };
        let out = self.stack.dispatch(&req);
        proof {
            lemma_stack_single_attempt(
                old(self).stack.layers@,
                0,
                old(self).stack.backend,
                req,
                self.stack.backend,
                out,
            );
        }
        match out {
            Ok(_) => Ok(()),
            Err(e) => Err(e),
        }
    }

    /// Move an object to a new path, overwriting the destination.  As
    /// with copy, no emulation is attempted.
    pub fn rename(&mut self, from: &[u8], to: &[u8]) -> (r: Result<(), OpError>)
        requires
            old(self).wf(),
        ensures
            final(self).wf(),
            Operator::same_shell(*old(self), *final(self)),
            !(spec_file_path(from@) && spec_file_path(to@)) ==> r == Result::<(), OpError>::Err(
                spec_gate_error(ErrorKind::InvalidInput, Operation::Rename),
            ) && *final(self) == *old(self),
            spec_file_path(from@) && spec_file_path(to@) && !old(self).capability().rename ==> r
                == Result::<(), OpError>::Err(
                spec_gate_error(ErrorKind::Unsupported, Operation::Rename),
            ) && *final(self) == *old(self),
            spec_file_path(from@) && spec_file_path(to@) && old(self).capability().rename ==> if old(
                self,
            ).faults() > 0 {
                &&& r == Result::<(), OpError>::Err(
                    spec_fault_error(old(self).stack.backend, Operation::Rename),
                )
                &&& final(self).objects() == old(self).objects()
                &&& final(self).faults() == old(self).faults() - 1
            } else if old(self).store().contains_key(from@) {
                &&& r == Result::<(), OpError>::Ok(())
                &&& final(self).store() == old(self).store().remove(from@).insert(
                    to@,
                    old(self).store()[from@],
                )
            } else {
                &&& r == Result::<(), OpError>::Err(
                    spec_gate_error(ErrorKind::NotFound, Operation::Rename),
                )
                &&& final(self).objects() == old(self).objects()
            },
    {
        if !(file_path(from) && file_path(to)) {
            return Err(OpError::new(ErrorKind::InvalidInput, Operation::Rename, false));
        }
        if !self.stack.backend.capability.rename {
            return Err(OpError::new(ErrorKind::Unsupported, Operation::Rename, false));
        }
        let req = OpRequest::Rename { from: slice_to_vec(from), to: slice_to_vec(to) };
        let out = self.stack.dispatch(&req);
        proof {
            lemma_stack_single_attempt(
                old(self).stack.layers@,
                0,
                old(self).stack.backend,
                req,
                self.stack.backend,
                out,
            );
        }
        match out {
            Ok(_) => Ok(()),
            Err(e) => Err(e),
        }
    }

    /// Pre-authorize direct access to one object.  A backend whose
    /// capability lacks `presign`, or the flag of the asked kind, fails
    /// with `Unsupported` before any backend call.  A granted request
    /// carries the method of the asked kind, the configured endpoint, and
    /// a header mapping with no duplicate keys.
    pub fn presign(&mut self, path: &[u8], op: PresignOperation, expire_seconds: u64) -> (r: Result<
        PresignedRequest,
        OpError,
    >)
        requires
            old(self).wf(),
        ensures
            final(self).wf(),
            Operator::same_shell(*old(self), *final(self)),
            !spec_valid_path(path@) ==> r == Result::<PresignedRequest, OpError>::Err(
                spec_gate_error(ErrorKind::InvalidInput, Operation::Presign),
            ) && *final(self) == *old(self),
            spec_valid_path(path@) && !(old(self).capability().presign && spec_presign_flag(
                old(self).capability(),
                op,
            )) ==> r == Result::<PresignedRequest, OpError>::Err(
                spec_gate_error(ErrorKind::Unsupported, Operation::Presign),
            ) && *final(self) == *old(self),
            spec_valid_path(path@) && old(self).capability().presign && spec_presign_flag(
                old(self).capability(),
                op,
            ) ==> {
                &&& final(self).objects() == old(self).objects()
                &&& match r {
                    Ok(p) => {
                        &&& p.wf()
                        &&& p.method == spec_method_for(op)
                        &&& p.uri@ == old(self).stack.backend.endpoint@
                        &&& p.header_map() == spec_header_map(
                            old(self).stack.backend.signing_headers@,
                        )
                    },
                    Err(_) => true,
                }
                &&& old(self).faults() == 0 ==> (r is Ok)
            },
    {
        if !valid_path(path) {
            return Err(OpError::new(ErrorKind::InvalidInput, Operation::Presign, false));
        }
        if !(self.stack.backend.capability.presign && presign_flag(
            &self.stack.backend.capability,
            op,
        )) {
            return Err(OpError::new(ErrorKind::Unsupported, Operation::Presign, false));
        }
        let req = OpRequest::Presign { path: slice_to_vec(path), op, expire_seconds };
        let out = self.stack.dispatch(&req);
        proof {
            lemma_stack_single_attempt(
                old(self).stack.layers@,
                0,
                old(self).stack.backend,
                req,
                self.stack.backend,
                out,
            );
        }
        match out {
            Ok(OpOutput::Presigned(p)) => Ok(p),
            Ok(_) => {
                proof {
                    assert(false);
                }
                Err(OpError::new(ErrorKind::Unexpected, Operation::Presign, false))
            },
            Err(e) => Err(e),
        }
    }
}


/// The pair an entry shows: its path and metadata.
pub open spec fn spec_entry_pair(e: Entry) -> (Seq<u8>, Metadata) {
    (e.path@, e.metadata)
}

/// The pair a raw listing entry shows: its path and raw attributes.
pub open spec fn spec_raw_pair(e: RawEntry) -> (Seq<u8>, RawMeta) {
    (e.path@, e.meta)
}

/// A raw listing projected under a metakey mask, entry by entry.
pub open spec fn spec_assembled(l: Seq<(Seq<u8>, RawMeta)>, mk: Metakey) -> Seq<(Seq<u8>, Metadata)> {
    l.map_values(|t: (Seq<u8>, RawMeta)| (t.0, spec_assemble(t.1, mk)))
}

fn assemble_page(page: &Vec<RawEntry>, mk: &Metakey, out: &mut Vec<Entry>)
    ensures
        final(out)@.map_values(|e: Entry| spec_entry_pair(e)) == old(out)@.map_values(
            |e: Entry| spec_entry_pair(e),
        ) + spec_assembled(page@.map_values(|e: RawEntry| spec_raw_pair(e)), *mk),
{
    let n = page.len();
    for i in 0..n
        invariant
            n == page@.len(),
            out@.map_values(|e: Entry| spec_entry_pair(e)) == old(out)@.map_values(
                |e: Entry| spec_entry_pair(e),
            ) + spec_assembled(
                page@.map_values(|e: RawEntry| spec_raw_pair(e)).take(i as int),
                *mk,
            ),
    {
        let raw = &page[i];
        let entry = Entry { path: raw.path.clone(), metadata: Metadata::assemble(&raw.meta, mk) };
        let ghost prev = out@;
        out.push(entry);
        proof {
            let f = |e: Entry| spec_entry_pair(e);
            let rp = page@.map_values(|e: RawEntry| spec_raw_pair(e));
            let pair = (rp[i as int].0, spec_assemble(rp[i as int].1, *mk));
            assert(spec_entry_pair(entry) == pair);
            assert(rp.take(i + 1) =~= rp.take(i as int).push(rp[i as int]));
            assert(spec_assembled(rp.take(i + 1), *mk) =~= spec_assembled(rp.take(i as int), *mk)
                .push(pair));
            assert(out@.map_values(f) =~= prev.map_values(f).push(pair));
            assert(prev.map_values(f).push(pair) =~= old(out)@.map_values(f) + spec_assembled(
                rp.take(i as int),
                *mk,
            ).push(pair));
            assert(old(out)@.map_values(f) + spec_assembled(rp.take(i as int), *mk).push(pair)
                =~= old(out)@.map_values(f) + spec_assembled(rp.take(i + 1), *mk));
        }
    }
    proof {
        let rp = page@.map_values(|e: RawEntry| spec_raw_pair(e));
        assert(rp.take(rp.len() as int) =~= rp);
    }
}

impl Operator {
    /// List every object under a prefix, draining the backend's pages in
    /// order.  A prefix that is neither the root nor a directory path is
    /// `NotADirectory`, and a missing `list` capability `Unsupported`,
    /// both without any backend call.  A drained listing shows exactly
    /// the stored objects under the prefix, in storage order, each once,
    /// projected under the metakey mask; with no scripted fault the
    /// drain succeeds.
    pub fn list_all(&mut self, prefix: &[u8], mk: &Metakey) -> (r: Result<Vec<Entry>, OpError>)
        requires
            old(self).wf(),
        ensures
            final(self).wf(),
            Operator::same_shell(*old(self), *final(self)),
            !spec_list_prefix(prefix@) ==> r == Result::<Vec<Entry>, OpError>::Err(
                spec_gate_error(ErrorKind::NotADirectory, Operation::List),
            ) && *final(self) == *old(self),
            spec_list_prefix(prefix@) && !old(self).capability().list ==> r == Result::<
                Vec<Entry>,
                OpError,
            >::Err(spec_gate_error(ErrorKind::Unsupported, Operation::List)) && *final(self)
                == *old(self),
            spec_list_prefix(prefix@) && old(self).capability().list ==> {
                &&& final(self).objects() == old(self).objects()
                &&& match r {
                    Ok(v) => v@.map_values(|e: Entry| spec_entry_pair(e)) == spec_assembled(
                        spec_listing(old(self).objects(), prefix@),
                        *mk,
                    ),
                    Err(_) => true,
                }
                &&& old(self).faults() == 0 ==> (r is Ok)
            },
    {
        if !list_prefix(prefix) {
            return Err(OpError::new(ErrorKind::NotADirectory, Operation::List, false));
        }
        if !self.stack.backend.capability.list {
            return Err(OpError::new(ErrorKind::Unsupported, Operation::List, false));
        }
        let ghost objs = self.stack.backend.objects@;
        let mut acc: Vec<Entry> = Vec::new();
        let mut cursor: usize = 0;
        let mut done: bool = false;
        proof {
            assert(objs.subrange(0, 0) =~= Seq::<Obj>::empty());
        }
        while !done
            invariant
                self.wf(),
                spec_list_prefix(prefix@),
                old(self).capability().list,
                Operator::same_shell(*old(self), *self),
                self.stack.backend.objects@ == objs,
                objs == old(self).stack.backend.objects@,
                old(self).stack.backend.faults == 0 ==> self.stack.backend.faults == 0,
                cursor <= objs.len(),
                acc@.map_values(|e: Entry| spec_entry_pair(e)) == spec_assembled(
                    spec_listing(objs.subrange(0, cursor as int), prefix@),
                    *mk,
                ),
                done ==> cursor == objs.len(),
            decreases objs.len() - cursor + (if done { 0int } else { 1int }),
        {
            let ghost pre_b = self.stack.backend;
            let req = OpRequest::ListPage { path: slice_to_vec(prefix), cursor };
            let out = self.stack.dispatch(&req);
            proof {
                lemma_stack_read_only(
                    old(self).stack.layers@,
                    0,
                    pre_b,
                    req,
                    self.stack.backend,
                    out,
                );
            }
            let n = self.stack.backend.objects.len();
            let ghost stop = spec_page_stop(
                objs,
                prefix@,
                cursor as int,
                pre_b.page_size as nat,
            );
            match out {
                Ok(OpOutput::Page { entries, next }) => {
                    proof {
                        assert(entries@.map_values(|e: RawEntry| spec_raw_pair(e))
                            =~= entries@.map_values(|e: RawEntry| (e.path@, e.meta)));
                        assert(spec_clamped(cursor, objs.len() as int) == cursor as int);
                        crate::backend::lemma_page_stop_bounds(
                            objs,
                            prefix@,
                            cursor as int,
                            pre_b.page_size as nat,
                        );
                        crate::backend::lemma_listing_split(
                            objs,
                            prefix@,
                            0,
                            cursor as int,
                            stop,
                        );
                        assert(spec_assembled(
                            spec_listing(objs.subrange(0, cursor as int), prefix@) + spec_listing(
                                objs.subrange(cursor as int, stop),
                                prefix@,
                            ),
                            *mk,
                        ) =~= spec_assembled(
                            spec_listing(objs.subrange(0, cursor as int), prefix@),
                            *mk,
                        ) + spec_assembled(
                            spec_listing(objs.subrange(cursor as int, stop), prefix@),
                            *mk,
                        ));
                        if cursor < objs.len() {
                            crate::backend::lemma_page_stop_advances(
                                objs,
                                prefix@,
                                cursor as int,
                                pre_b.page_size as nat,
                            );
                        }
                    }
                    assemble_page(&entries, mk, &mut acc);
                    proof {
                        assert(acc@.map_values(|e: Entry| spec_entry_pair(e)) == spec_assembled(
                            spec_listing(objs.subrange(0, stop), prefix@),
                            *mk,
                        ));
                    }
                    match next {
                        Some(c2) => {
                            proof {
                                assert(c2 as int == stop);
                                assert(cursor < objs.len());
                                assert(stop >= cursor + 1);
                            }
                            cursor = c2;
                        },
                        None => {
                            proof {
                                assert(stop == objs.len() as int);
                            }
                            cursor = self.stack.backend.objects.len();
                            done = true;
                        },
                    }
                },
                Ok(_) => {
                    proof {
                        assert(false);
                    }
                    return Err(OpError::new(ErrorKind::Unexpected, Operation::List, false));
                },
                Err(e) => {
                    proof {
                        if old(self).stack.backend.faults == 0 {
                            assert(false);
                        }
                    }
                    return Err(e);
                },
            }
        }
        proof {
            assert(objs.subrange(0, objs.len() as int) =~= objs);
        }
        Ok(acc)
    }
}


/// The store after removing each of the given paths, in order.
pub open spec fn spec_remove_all(m: Map<Seq<u8>, Seq<u8>>, ps: Seq<Vec<u8>>) -> Map<
    Seq<u8>,
    Seq<u8>,
>
    decreases ps.len(),
{
    if ps.len() == 0 {
        m
    } else {
        spec_remove_all(m, ps.drop_last()).remove(ps.last()@)
    }
}

/// The bytes of a chunk sequence, concatenated in order.
pub open spec fn spec_concat(chunks: Seq<Vec<u8>>) -> Seq<u8>
    decreases chunks.len(),
{
    if chunks.len() == 0 {
        Seq::empty()
    } else {
        spec_concat(chunks.drop_last()) + chunks.last()@
    }
}

/// Whether one multipart chunk obeys the backend's size constraints: at
/// least the minimum, at most the maximum, and a multiple of the
/// alignment when one is set.
pub open spec fn spec_chunk_ok(c: Capability, len: nat) -> bool {
    &&& len >= c.write_multi_min_size
    &&& len <= c.write_multi_max_size
    &&& (c.write_multi_align_size > 0 ==> len % (c.write_multi_align_size as nat) == 0)
}

/// Every chunk obeys the constraints.
pub open spec fn spec_chunks_ok(c: Capability, chunks: Seq<Vec<u8>>) -> bool {
    forall|i: int| 0 <= i < chunks.len() ==> spec_chunk_ok(c, (#[trigger] chunks[i])@.len())
}

/// Whether a chunk length obeys the multipart size constraints.
pub fn chunk_ok(c: &Capability, len: usize) -> (r: bool)
    ensures
        r == spec_chunk_ok(*c, len as nat),
{
    len as u64 >= c.write_multi_min_size && (len as u64) <= c.write_multi_max_size && (
    c.write_multi_align_size == 0 || (len as u64) % c.write_multi_align_size == 0)
}

impl Operator {
    /// Remove several objects in one batch, one result per path, in
    /// order.  A missing `batch` or `batch_delete` capability is
    /// `Unsupported`, and a batch larger than the backend's limit
    /// `InvalidInput`, both without any backend call.  With no scripted
    /// fault every item succeeds and the store drops exactly the given
    /// paths.
    pub fn batch_delete(&mut self, paths: &Vec<Vec<u8>>) -> (r: Result<
        Vec<Result<(), OpError>>,
        OpError,
    >)
        requires
            old(self).wf(),
            forall|i: int| 0 <= i < paths@.len() ==> spec_valid_path((#[trigger] paths@[i])@),
        ensures
            final(self).wf(),
            Operator::same_shell(*old(self), *final(self)),
            !(old(self).capability().batch && old(self).capability().batch_delete) ==> r
                == Result::<Vec<Result<(), OpError>>, OpError>::Err(
                spec_gate_error(ErrorKind::Unsupported, Operation::Batch),
            ) && *final(self) == *old(self),
            old(self).capability().batch && old(self).capability().batch_delete && paths@.len()
                > old(self).capability().batch_max_operations ==> r == Result::<
                Vec<Result<(), OpError>>,
                OpError,
            >::Err(spec_gate_error(ErrorKind::InvalidInput, Operation::Batch)) && *final(self)
                == *old(self),
            old(self).capability().batch && old(self).capability().batch_delete && paths@.len()
                <= old(self).capability().batch_max_operations ==> {
                &&& match r {
                    Ok(results) => results@.len() == paths@.len(),
                    Err(_) => false,
                }
                &&& old(self).faults() == 0 ==> final(self).store() == spec_remove_all(
                    old(self).store(),
                    paths@,
                )
            },
    {
        if !(self.stack.backend.capability.batch && self.stack.backend.capability.batch_delete) {
            return Err(OpError::new(ErrorKind::Unsupported, Operation::Batch, false));
        }
        if paths.len() as u64 > self.stack.backend.capability.batch_max_operations {
            return Err(OpError::new(ErrorKind::InvalidInput, Operation::Batch, false));
        }
        let mut results: Vec<Result<(), OpError>> = Vec::new();
        let n = paths.len();
        for i in 0..n
            invariant
                self.wf(),
                n == paths@.len(),
                Operator::same_shell(*old(self), *self),
                results@.len() == i,
                old(self).stack.backend.faults == 0 ==> self.stack.backend.faults == 0
                    && self.stack.backend.store() == spec_remove_all(
                    old(self).store(),
                    paths@.take(i as int),
                ),
        {
            let ghost pre_b = self.stack.backend;
            let req = OpRequest::Delete { path: paths[i].clone() };
            let out = self.stack.dispatch(&req);
            proof {
                lemma_stack_single_attempt(
                    old(self).stack.layers@,
                    0,
                    pre_b,
                    req,
                    self.stack.backend,
                    out,
                );
                assert(paths@.take(i + 1).drop_last() =~= paths@.take(i as int));
            }
            match out {
                Ok(_) => results.push(Ok(())),
                Err(e) => results.push(Err(e)),
            }
        }
        proof {
            assert(paths@.take(n as int) =~= paths@);
        }
        Ok(results)
    }

    /// Store a multipart upload: the chunks are checked against the
    /// backend's minimum, maximum and alignment constraints locally,
    /// before any backend call, and rejected as `InvalidInput` if any
    /// violates them; a backend without multipart writing is
    /// `Unsupported`.  Accepted chunks are stored as one object holding
    /// their concatenation.
    pub fn write_chunked(&mut self, path: &[u8], chunks: &Vec<Vec<u8>>) -> (r: Result<(), OpError>)
        requires
            old(self).wf(),
        ensures
            final(self).wf(),
            Operator::same_shell(*old(self), *final(self)),
            !spec_file_path(path@) ==> r == Result::<(), OpError>::Err(
                spec_gate_error(ErrorKind::InvalidInput, Operation::Write),
            ) && *final(self) == *old(self),
            spec_file_path(path@) && !(old(self).capability().write && old(
                self,
            ).capability().write_can_multi) ==> r == Result::<(), OpError>::Err(
                spec_gate_error(ErrorKind::Unsupported, Operation::Write),
            ) && *final(self) == *old(self),
            spec_file_path(path@) && old(self).capability().write && old(
                self,
            ).capability().write_can_multi && !spec_chunks_ok(old(self).capability(), chunks@)
                ==> r == Result::<(), OpError>::Err(
                spec_gate_error(ErrorKind::InvalidInput, Operation::Write),
            ) && *final(self) == *old(self),
            spec_file_path(path@) && old(self).capability().write && old(
                self,
            ).capability().write_can_multi && spec_chunks_ok(old(self).capability(), chunks@)
                ==> if old(self).faults() > 0 {
                &&& r == Result::<(), OpError>::Err(
                    spec_fault_error(old(self).stack.backend, Operation::Write),
                )
                &&& final(self).objects() == old(self).objects()
                &&& final(self).faults() == old(self).faults() - 1
            } else {
                &&& r == Result::<(), OpError>::Ok(())
                &&& final(self).store() == old(self).store().insert(
                    path@,
                    spec_concat(chunks@),
                )
            },
    {
        if !file_path(path) {
            return Err(OpError::new(ErrorKind::InvalidInput, Operation::Write, false));
        }
        if !(self.stack.backend.capability.write && self.stack.backend.capability.write_can_multi) {
            return Err(OpError::new(ErrorKind::Unsupported, Operation::Write, false));
        }
        let n = chunks.len();
        for i in 0..n
            invariant
                n == chunks@.len(),
                self.wf(),
                *self == *old(self),
                spec_file_path(path@),
                old(self).capability().write && old(self).capability().write_can_multi,
                forall|t: int| 0 <= t < i ==> spec_chunk_ok(
                    self.stack.backend.capability,
                    (#[trigger] chunks@[t])@.len(),
                ),
        {
            if !chunk_ok(&self.stack.backend.capability, chunks[i].len()) {
                return Err(OpError::new(ErrorKind::InvalidInput, Operation::Write, false));
            }
        }
        let mut data: Vec<u8> = Vec::new();
        proof {
            assert(data@ =~= spec_concat(chunks@.take(0)));
        }
        for i in 0..n
            invariant
                n == chunks@.len(),
                self.wf(),
                *self == *old(self),
                spec_file_path(path@),
                old(self).capability().write && old(self).capability().write_can_multi,
                spec_chunks_ok(old(self).capability(), chunks@),
                data@ == spec_concat(chunks@.take(i as int)),
        {
            let mut piece = chunks[i].clone();
            data.append(&mut piece);
            proof {
                assert(chunks@.take(i + 1).drop_last() =~= chunks@.take(i as int));
            }
        }
        proof {
            assert(chunks@.take(n as int) =~= chunks@);
        }
        let req = OpRequest::Write { path: slice_to_vec(path), data };
        let out = self.stack.dispatch(&req);
        proof {
            lemma_stack_single_attempt(
                old(self).stack.layers@,
                0,
                old(self).stack.backend,
                req,
                self.stack.backend,
                out,
            );
        }
        match out {
            Ok(_) => Ok(()),
            Err(e) => Err(e),
        }
    }
}

/// Round trip: writing bytes to a path and reading them back with no
/// intervening write yields the same bytes, stated over the store that
/// the write and read contracts speak of.
pub proof fn lemma_write_read_round_trip(
    store: Map<Seq<u8>, Seq<u8>>,
    path: Seq<u8>,
    data: Seq<u8>,
)
    ensures
        store.insert(path, data).contains_key(path),
        store.insert(path, data)[path] == data,
{
}

/// Idempotence: two stat answers for the same path of an unmodified
/// store, projected under the same mask, are identical in every field.
pub proof fn lemma_stat_idempotent(
    store: Map<Seq<u8>, Seq<u8>>,
    path: Seq<u8>,
    mk: Metakey,
    m1: Metadata,
    m2: Metadata,
)
    requires
        store.contains_key(path),
        m1 == spec_assemble(spec_meta_of(path, store[path]), mk),
        m2 == spec_assemble(spec_meta_of(path, store[path]), mk),
    ensures
        m1 == m2,
{
}

} // verus!
