//! Writing a key of the System Management Controller.
//!
//! A write takes two calls into the SMC driver: the first asks for the key's
//! info (its data size), the second writes the data with that size. The calls
//! themselves are made by the program; this module decides what each call
//! carries and what the outcome is, as a state machine fed with each call's
//! result.

use vstd::prelude::*;
use vstd::utf8::encode_utf8;
use vstd::string::StringExecFns;

use crate::text::{decimal, decimal_text};

verus! {

/// Driver command: read a key's info.
pub const SMC_CMD_READ_KEYINFO: u8 = 9;

/// Driver command: write a key.
pub const SMC_CMD_WRITE_KEY: u8 = 6;

/// Room for data in one key record.
pub const SMC_DATA_MAX: usize = 32;

/// The kernel's success code.
pub const KERN_SUCCESS: i32 = 0;

/// Why an SMC operation failed.
#[derive(Clone, Copy, Debug, PartialEq, Eq, Structural)]
pub enum SmcError {
    /// No `AppleSMC` service is registered.
    NoAppleSmc,
    /// No service matched `AppleSMC`.
    NoService,
    /// Opening the service returned this kernel code.
    OpenFailed(i32),
    /// A driver call returned this kernel code.
    CallFailed(i32),
}

/// The fields of a driver key record that a write sets; every other field of
/// the record is zero.
#[derive(Debug, PartialEq, Eq)]
pub struct SmcKeyData {
    /// The key's four characters, big-endian.
    pub key: u32,
    /// The driver command.
    pub data8: u8,
    /// The data size from the key's info.
    pub data_size: u32,
    /// The data, always `SMC_DATA_MAX` bytes.
    pub bytes: Vec<u8>,
}

/// The mathematical form of an [`SmcKeyData`].
pub struct SmcKeyDataView {
    pub key: u32,
    pub data8: u8,
    pub data_size: u32,
    pub bytes: Seq<u8>,
}

impl View for SmcKeyData {
    type V = SmcKeyDataView;

    open spec fn view(&self) -> SmcKeyDataView {
        SmcKeyDataView {
            key: self.key,
            data8: self.data8,
            data_size: self.data_size,
            bytes: self.bytes@,
        }
    }
}

/// Byte `i` of a key name, zero past its end.
pub open spec fn key_byte(bytes: Seq<u8>, i: int) -> int {
    if i < bytes.len() {
        bytes[i] as int
    } else {
        0
    }
}

/// The key code of a key name's bytes: its first four bytes, padded with
/// zeros, read big-endian.
pub open spec fn key_code(bytes: Seq<u8>) -> u32 {
    (key_byte(bytes, 0) * 0x1000000 + key_byte(bytes, 1) * 0x10000 + key_byte(bytes, 2) * 0x100
        + key_byte(bytes, 3)) as u32
}

/// The data field of a write: the first `SMC_DATA_MAX` bytes of `data`,
/// padded with zeros.
pub open spec fn payload(data: Seq<u8>) -> Seq<u8> {
    Seq::new(SMC_DATA_MAX as nat, |i: int| if i < data.len() { data[i] } else { 0u8 })
}

/// The record asking for the info of key `key`.
pub open spec fn info_request(key: u32) -> SmcKeyDataView {
    SmcKeyDataView {
        key,
        data8: SMC_CMD_READ_KEYINFO,
        data_size: 0,
        bytes: Seq::new(SMC_DATA_MAX as nat, |i: int| 0u8),
    }
}

/// The record writing `bytes` to key `key` of data size `size`.
pub open spec fn write_request(key: u32, size: u32, bytes: Seq<u8>) -> SmcKeyDataView {
    SmcKeyDataView { key, data8: SMC_CMD_WRITE_KEY, data_size: size, bytes }
}

/// Where a key write stands.
#[derive(Clone, Copy, Debug, PartialEq, Eq)]
pub enum KeyWriteStage {
    /// The info request is out.
    AwaitingInfo,
    /// The write request is out.
    AwaitingWrite,
    /// The write is over, with this outcome.
    Finished(Result<(), SmcError>),
}

/// A write of one key in progress.
pub struct KeyWrite {
    /// The key code.
    pub key: u32,
    /// The data field to write.
    pub bytes: Vec<u8>,
    /// Where the write stands.
    pub stage: KeyWriteStage,
}

/// What to do next in a key write.
#[derive(Debug)]
pub enum SmcStep {
    /// Make this driver call and report its result.
    Call(SmcKeyData),
    /// The write is over.
    Finished(Result<(), SmcError>),
}

/// The mathematical form of an [`SmcStep`].
pub enum SmcStepView {
    Call(SmcKeyDataView),
    Finished(Result<(), SmcError>),
}

impl View for SmcStep {
    type V = SmcStepView;

    open spec fn view(&self) -> SmcStepView {
        match self {
            SmcStep::Call(r) => SmcStepView::Call(r@),
            SmcStep::Finished(o) => SmcStepView::Finished(*o),
        }
    }
}

/// The result of one driver call in a key write: what follows it and the
/// stage after it. A failed call ends the write with its code; a successful
/// info call is followed by the write request with the data size it reported;
/// a successful write call ends the write.
pub open spec fn key_write_next(
    stage: KeyWriteStage,
    key: u32,
    bytes: Seq<u8>,
    kern_return: i32,
    reply_data_size: u32,
) -> (KeyWriteStage, SmcStepView) {
    match stage {
        KeyWriteStage::AwaitingInfo => if kern_return != KERN_SUCCESS {
            (
                KeyWriteStage::Finished(Err(SmcError::CallFailed(kern_return))),
                SmcStepView::Finished(Err(SmcError::CallFailed(kern_return))),
            )
        } else {
            (
                KeyWriteStage::AwaitingWrite,
                SmcStepView::Call(write_request(key, reply_data_size, bytes)),
            )
        },
        KeyWriteStage::AwaitingWrite => if kern_return != KERN_SUCCESS {
            (
                KeyWriteStage::Finished(Err(SmcError::CallFailed(kern_return))),
                SmcStepView::Finished(Err(SmcError::CallFailed(kern_return))),
            )
        } else {
            (KeyWriteStage::Finished(Ok(())), SmcStepView::Finished(Ok(())))
        },
        KeyWriteStage::Finished(outcome) => (stage, SmcStepView::Finished(outcome)),
    }
}

/// An open connection to the SMC driver.
pub struct SmcConn {
    /// The driver connection handle.
    pub connection: u32,
}

/// The key code of `key`: its first four UTF-8 bytes, zero-padded, big-endian.
pub fn key_code_of(key: &str) -> (code: u32)
    ensures
        code == key_code(encode_utf8(key@)),
{
    let b = key.as_bytes();
    let n = b.len();
    let b0: u32 = if n > 0 {
        b[0] as u32
    } else {
        0
    };
    let b1: u32 = if n > 1 {
        b[1] as u32
    } else {
        0
    };
    let b2: u32 = if n > 2 {
        b[2] as u32
    } else {
        0
    };
    let b3: u32 = if n > 3 {
        b[3] as u32
    } else {
        0
    };
    b0 * 0x1000000 + b1 * 0x10000 + b2 * 0x100 + b3
}

/// The data field of a write of `data`.
pub fn payload_of(data: &[u8]) -> (bytes: Vec<u8>)
    ensures
        bytes@ == payload(data@),
{
    let mut bytes: Vec<u8> = Vec::new();
    let mut i: usize = 0;
    while i < SMC_DATA_MAX
        invariant
            i <= SMC_DATA_MAX,
            bytes@ == payload(data@).take(i as int),
        decreases SMC_DATA_MAX - i,
    {
        let b = if i < data.len() {
            data[i]
        } else {
            0u8
        };
        bytes.push(b);
        i = i + 1;
        assert(bytes@ =~= payload(data@).take(i as int));
    }
    assert(payload(data@).take(SMC_DATA_MAX as int) =~= payload(data@));
    bytes
}

fn zero_bytes() -> (bytes: Vec<u8>)
    ensures
        bytes@ == Seq::new(SMC_DATA_MAX as nat, |i: int| 0u8),
{
    let mut bytes: Vec<u8> = Vec::new();
    let mut i: usize = 0;
    while i < SMC_DATA_MAX
        invariant
            i <= SMC_DATA_MAX,
            bytes@ == Seq::new(i as nat, |k: int| 0u8),
        decreases SMC_DATA_MAX - i,
    {
        bytes.push(0u8);
        i = i + 1;
        assert(bytes@ =~= Seq::new(i as nat, |k: int| 0u8));
    }
    bytes
}

impl SmcConn {
    /// The connection that opening the driver gave, or the open's failure:
    /// any kernel code other than success fails.
    pub fn from_open_result(kern_return: i32, connection: u32) -> (r: Result<SmcConn, SmcError>)
        ensures
            kern_return == KERN_SUCCESS ==> (r matches Ok(c) && c.connection == connection),
            kern_return != KERN_SUCCESS ==> r == Err::<SmcConn, SmcError>(
                SmcError::OpenFailed(kern_return),
            ),
    {
        if kern_return != KERN_SUCCESS {
            Err(SmcError::OpenFailed(kern_return))
        } else {
            Ok(SmcConn { connection })
        }
    }

    /// Starts writing `data` to the key named `key`: the write in progress
    /// and the first driver call, the request for the key's info.
    pub fn write_key(&self, key: &str, data: &[u8]) -> (r: (KeyWrite, SmcKeyData))
        ensures
            r.0.key == key_code(encode_utf8(key@)),
            r.0.bytes@ == payload(data@),
            r.0.stage == KeyWriteStage::AwaitingInfo,
            r.1@ == info_request(key_code(encode_utf8(key@))),
    {
        let code = key_code_of(key);
        let request = SmcKeyData {
            key: code,
            data8: SMC_CMD_READ_KEYINFO,
            data_size: 0,
            bytes: zero_bytes(),
        };
        (KeyWrite { key: code, bytes: payload_of(data), stage: KeyWriteStage::AwaitingInfo }, request)
    }
}

impl KeyWrite {
    /// Whether the write is over.
    pub fn is_finished(&self) -> (r: bool)
        ensures
            r == (self.stage is Finished),
    {
        match self.stage {
            KeyWriteStage::Finished(_) => true,
            _ => false,
        }
    }

    /// Takes the result of the driver call last asked for (its kernel code
    /// and the data size in its reply record) and says what follows.
    pub fn on_reply(&mut self, kern_return: i32, reply_data_size: u32) -> (step: SmcStep)
        ensures
            final(self).key == old(self).key,
            final(self).bytes@ == old(self).bytes@,
            (final(self).stage, step@) == key_write_next(
                old(self).stage,
                old(self).key,
                old(self).bytes@,
                kern_return,
                reply_data_size,
            ),
    {
        match self.stage {
            KeyWriteStage::AwaitingInfo => {
                if kern_return != KERN_SUCCESS {
                    let outcome = Err(SmcError::CallFailed(kern_return));
                    self.stage = KeyWriteStage::Finished(outcome);
                    SmcStep::Finished(outcome)
                } else {
                    self.stage = KeyWriteStage::AwaitingWrite;
                    SmcStep::Call(
                        SmcKeyData {
                            key: self.key,
                            data8: SMC_CMD_WRITE_KEY,
                            data_size: reply_data_size,
                            bytes: self.bytes.clone(),
                        },
                    )
                }
            },
            KeyWriteStage::AwaitingWrite => {
                let outcome = if kern_return != KERN_SUCCESS {
                    Err(SmcError::CallFailed(kern_return))
                } else {
                    Ok(())
                };
                self.stage = KeyWriteStage::Finished(outcome);
                SmcStep::Finished(outcome)
            },
            KeyWriteStage::Finished(outcome) => SmcStep::Finished(outcome),
        }
    }
}

/// How an SMC failure reads.
pub open spec fn smc_error_text(e: SmcError) -> Seq<char> {
    match e {
        SmcError::NoAppleSmc => "no AppleSMC"@,
        SmcError::NoService => "no service"@,
        SmcError::OpenFailed(r) => "open failed: "@ + decimal_text(r as int),
        SmcError::CallFailed(r) => "call failed: "@ + decimal_text(r as int),
    }
}

/// The text of an SMC failure.
pub fn error_text(e: SmcError) -> (t: String)
    ensures
        t@ == smc_error_text(e),
{
    match e {
        SmcError::NoAppleSmc => String::from_str("no AppleSMC"),
        SmcError::NoService => String::from_str("no service"),
        SmcError::OpenFailed(r) => String::from_str("open failed: ").concat(decimal(r).as_str()),
        SmcError::CallFailed(r) => String::from_str("call failed: ").concat(decimal(r).as_str()),
    }
}

/// A key write succeeds exactly when both of its driver calls return
/// success; any other kernel code, negative or positive, ends it with that
/// code at the call that returned it. The write call carries the same key
/// and data as the write was started with, and the data size the info call
/// reported.
pub proof fn lemma_write_outcome(key: u32, bytes: Seq<u8>, k1: i32, n1: u32, k2: i32, n2: u32)
    ensures
        ({
            let (st1, a1) = key_write_next(KeyWriteStage::AwaitingInfo, key, bytes, k1, n1);
            let (st2, a2) = key_write_next(st1, key, bytes, k2, n2);
            &&& k1 != 0 ==> a1 == SmcStepView::Finished(Err(SmcError::CallFailed(k1)))
            &&& k1 != 0 ==> a2 == SmcStepView::Finished(Err(SmcError::CallFailed(k1)))
            &&& k1 == 0 ==> a1 == SmcStepView::Call(
                SmcKeyDataView { key, data8: 6u8, data_size: n1, bytes },
            )
            &&& k1 == 0 && k2 != 0 ==> a2 == SmcStepView::Finished(Err(SmcError::CallFailed(k2)))
            &&& (a2 == SmcStepView::Finished(Ok(()))) <==> (k1 == 0 && k2 == 0)
            &&& st2 == KeyWriteStage::Finished(
                if k1 != 0 {
                    Err(SmcError::CallFailed(k1))
                } else if k2 != 0 {
                    Err(SmcError::CallFailed(k2))
                } else {
                    Ok(())
                },
            )
        }),
{
}

/// A write starts by asking for the info of the key named by the first four
/// bytes of its name (big-endian, zero-padded), and writes the first 32 bytes
/// of the data, padded with zeros.
pub proof fn lemma_write_fields(name: Seq<u8>, data: Seq<u8>)
    ensures
        info_request(key_code(name)).data8 == 9u8,
        key_code(name) as int == 16777216 * key_byte(name, 0) + 65536 * key_byte(name, 1) + 256
            * key_byte(name, 2) + key_byte(name, 3),
        payload(data).len() == 32,
        forall|i: int| 0 <= i < 32 && i < data.len() ==> #[trigger] payload(data)[i] == data[i],
        forall|i: int| data.len() <= i < 32 ==> #[trigger] payload(data)[i] == 0u8,
{
    let b0 = key_byte(name, 0);
    let b1 = key_byte(name, 1);
    let b2 = key_byte(name, 2);
    let b3 = key_byte(name, 3);
    assert(0 <= b0 <= 255 && 0 <= b1 <= 255 && 0 <= b2 <= 255 && 0 <= b3 <= 255);
    assert(0 <= 16777216 * b0 + 65536 * b1 + 256 * b2 + b3 <= 0xffffffff);
}

/// A finished write stays finished with its outcome whatever is reported
/// after it, and opening succeeds on the kernel's success code 0 only.
pub proof fn lemma_finished_write_is_final(outcome: Result<(), SmcError>, key: u32, bytes: Seq<u8>, k: i32, n: u32)
    ensures
        key_write_next(KeyWriteStage::Finished(outcome), key, bytes, k, n) == (
            KeyWriteStage::Finished(outcome),
            SmcStepView::Finished(outcome),
        ),
        KERN_SUCCESS == 0,
{
}

} // verus!
