//! The ISP wire protocol: the feature reports of every bootloader command,
//! the paged read and write transactions, the reset-vector relocation applied
//! around a write, and the wire plans of the read and write cycles.
//!
//! All traffic is 6-byte reports on the command channel and
//! `page_size + 2`-byte reports on the data channel.  The surrounding program
//! moves the reports over the transport; every byte of them, and everything
//! decided from the device's answers, is decided here.

use vstd::prelude::*;
use crate::device_spec::DeviceSpec;
use crate::util::VerificationError;

verus! {

pub const REPORT_ID_CMD: u8 = 0x05;

pub const REPORT_ID_XFER: u8 = 0x06;

pub const CMD_ISP_MODE: u8 = 0x75;

pub const CMD_ENABLE_FIRMWARE: u8 = 0x55;

pub const CMD_INIT_READ: u8 = 0x52;

pub const CMD_INIT_WRITE: u8 = 0x57;

pub const CMD_ERASE: u8 = 0x45;

pub const CMD_REBOOT: u8 = 0x5a;

pub const XFER_READ_PAGE: u8 = 0x72;

pub const XFER_WRITE_PAGE: u8 = 0x77;

/// Flash settle time after an erase, a reboot, or the mode switch, in
/// milliseconds; none of the three signals completion.
pub const SETTLE_MILLIS: u64 = 2000;

/// Backoff between resolution attempts, in milliseconds.
pub const RETRY_BACKOFF_MILLIS: u64 = 1000;

/// A failure of one flashing operation; nothing in the protocol engine is
/// retried, so each is fatal to the operation that hit it.
#[derive(Debug)]
pub enum ISPError {
    /// The transport failed; the message is the host stack's.
    Transport { message: String },
    /// The read-back does not match what was written.
    Verification(VerificationError),
    /// The device echoed the wrong opcode in a page response: the protocol
    /// is desynchronized and the data cannot be trusted.
    ReadWriteMismatch,
}

/// Which flash range a read returns.
#[derive(Debug, Clone, Copy, PartialEq, Eq, Structural)]
pub enum ReadSection {
    Firmware,
    Bootloader,
    Full,
}

impl ReadSection {
    pub fn to_str(&self) -> (r: &'static str)
        ensures
            r@ == (match self {
                ReadSection::Firmware => "firmware"@,
                ReadSection::Bootloader => "bootloader"@,
                ReadSection::Full => "full"@,
            }),
    {
        match self {
            ReadSection::Firmware => "firmware",
            ReadSection::Bootloader => "bootloader",
            ReadSection::Full => "full",
        }
    }

    pub fn available_sections() -> (r: Vec<&'static str>)
        ensures
            r@.len() == 3,
            r@[0]@ == "firmware"@,
            r@[1]@ == "bootloader"@,
            r@[2]@ == "full"@,
    {
        let mut v: Vec<&'static str> = Vec::new();
        v.push("firmware");
        v.push("bootloader");
        v.push("full");
        v
    }

    /// Reads a section name back.
    pub fn from_str(section: &str) -> (r: Result<ReadSection, ()>)
        ensures
            section@ == "firmware"@ ==> r == Ok::<ReadSection, ()>(ReadSection::Firmware),
            section@ == "bootloader"@ ==> r == Ok::<ReadSection, ()>(ReadSection::Bootloader),
            section@ == "full"@ ==> r == Ok::<ReadSection, ()>(ReadSection::Full),
            section@ != "firmware"@ && section@ != "bootloader"@ && section@ != "full"@ ==> r
                == Err::<ReadSection, ()>(()),
    {
        proof {
            reveal_strlit("firmware");
            reveal_strlit("bootloader");
            reveal_strlit("full");
            assert(("firmware")@.len() == 8);
            assert(("bootloader")@.len() == 10);
            assert(("full")@.len() == 4);
        }
        if crate::util::str_eq(section, "bootloader") {
            Ok(ReadSection::Bootloader)
        } else if crate::util::str_eq(section, "full") {
            Ok(ReadSection::Full)
        } else if crate::util::str_eq(section, "firmware") {
            Ok(ReadSection::Firmware)
        } else {
            Err(())
        }
    }
}

/// A 6-byte command report: the command report ID, the opcode, and two
/// argument bytes.
pub open spec fn spec_cmd_report(opcode: u8, a0: u8, a1: u8) -> Seq<u8> {
    seq![0x05u8, opcode, a0, a1, 0u8, 0u8]
}

/// Builds a 6-byte command report.
fn cmd_report(opcode: u8, a0: u8, a1: u8) -> (r: Vec<u8>)
    ensures
        r@ == spec_cmd_report(opcode, a0, a1),
{
    let mut v: Vec<u8> = Vec::new();
    v.push(REPORT_ID_CMD);
    v.push(opcode);
    v.push(a0);
    v.push(a1);
    v.push(0);
    v.push(0);
    proof {
        assert(v@ =~= spec_cmd_report(opcode, a0, a1));
    }
    v
}

/// The command that takes a normal-mode keyboard into its ISP bootloader.
pub fn enter_isp_report() -> (r: Vec<u8>)
    ensures
        r@ == spec_cmd_report(0x75, 0, 0),
{
    cmd_report(CMD_ISP_MODE, 0, 0)
}

/// The command that splices the stashed reset vector back in; required
/// before a read that should reflect application memory, and after every
/// write.
pub fn enable_firmware_report() -> (r: Vec<u8>)
    ensures
        r@ == spec_cmd_report(0x55, 0, 0),
{
    cmd_report(CMD_ENABLE_FIRMWARE, 0, 0)
}

/// The command that mass-erases the firmware region, leaving the bootloader
/// region alone and pointing the reset vector back at the bootloader.
pub fn erase_report() -> (r: Vec<u8>)
    ensures
        r@ == spec_cmd_report(0x45, 0, 0),
{
    cmd_report(CMD_ERASE, 0, 0)
}

/// The command that restarts the device into the main firmware.
pub fn reboot_report() -> (r: Vec<u8>)
    ensures
        r@ == spec_cmd_report(0x5a, 0, 0),
{
    cmd_report(CMD_REBOOT, 0, 0)
}

/// The command that sets the read address: little-endian, low byte first.
pub fn init_read_report(start_addr: u16) -> (r: Vec<u8>)
    ensures
        r@ == spec_cmd_report(0x52, (start_addr % 256) as u8, (start_addr / 256) as u8),
{
    cmd_report(CMD_INIT_READ, (start_addr % 256) as u8, (start_addr / 256) as u8)
}

/// The command that sets the write address: little-endian, low byte first.
pub fn init_write_report(start_addr: u16) -> (r: Vec<u8>)
    ensures
        r@ == spec_cmd_report(0x57, (start_addr % 256) as u8, (start_addr / 256) as u8),
{
    cmd_report(CMD_INIT_WRITE, (start_addr % 256) as u8, (start_addr / 256) as u8)
}

/// The report that writes one page: the data report ID, the write-page
/// opcode, and the page bytes.
pub fn write_page_report(chunk: &[u8]) -> (r: Vec<u8>)
    ensures
        r@ == seq![0x06u8, 0x77u8] + chunk@,
{
    let mut v: Vec<u8> = Vec::new();
    v.push(REPORT_ID_XFER);
    v.push(XFER_WRITE_PAGE);
    let n = chunk.len();
    let mut i: usize = 0;
    while i < n
        invariant
            i <= n,
            n == chunk@.len(),
            v@ == seq![0x06u8, 0x77u8] + chunk@.take(i as int),
        decreases n - i,
    {
        v.push(chunk[i]);
        proof {
            assert(seq![0x06u8, 0x77u8] + chunk@.take(i + 1) =~= (seq![0x06u8, 0x77u8]
                + chunk@.take(i as int)).push(chunk@[i as int]));
        }
        i = i + 1;
    }
    proof {
        assert(chunk@.take(n as int) =~= chunk@);
    }
    v
}

/// The buffer handed to the transport to fetch one page: the data report ID
/// followed by room for the opcode echo and the page bytes.
#[verifier::loop_isolation(false)]
pub fn read_page_request(page_size: usize) -> (r: Vec<u8>)
    requires
        page_size + 2 <= usize::MAX,
    ensures
        r@.len() == page_size + 2,
        r@[0] == 0x06u8,
        forall|i: int| 1 <= i < r@.len() ==> r@[i] == 0u8,
{
    let mut v: Vec<u8> = Vec::new();
    v.push(REPORT_ID_XFER);
    let mut i: usize = 0;
    while i < page_size + 1
        invariant
            i <= page_size + 1,
            v@.len() == i + 1,
            v@[0] == 0x06u8,
            forall|j: int| 1 <= j < v@.len() ==> v@[j] == 0u8,
        decreases page_size + 1 - i,
    {
        v.push(0);
        i = i + 1;
    }
    v
}

/// The page bytes of one page response, checked for the read-page opcode
/// echo: any other echoed opcode means the protocol is desynchronized, and
/// the data is refused rather than silently misaligned.
pub fn parse_read_page(xfer_buf: &Vec<u8>) -> (r: Result<Vec<u8>, ISPError>)
    requires
        xfer_buf@.len() >= 2,
    ensures
        xfer_buf@[1] == 0x72 ==> (r matches Ok(v) && v@ == xfer_buf@.subrange(
            2,
            xfer_buf@.len() as int,
        )),
        xfer_buf@[1] != 0x72 ==> (r matches Err(e) && e is ReadWriteMismatch),
{
    if xfer_buf[1] != XFER_READ_PAGE {
        return Err(ISPError::ReadWriteMismatch);
    }
    let n = xfer_buf.len();
    let mut v: Vec<u8> = Vec::new();
    let mut i: usize = 2;
    while i < n
        invariant
            2 <= i <= n,
            n == xfer_buf@.len(),
            v@ == xfer_buf@.subrange(2, i as int),
        decreases n - i,
    {
        v.push(xfer_buf[i]);
        proof {
            assert(xfer_buf@.subrange(2, i + 1) =~= xfer_buf@.subrange(2, i as int).push(
                xfer_buf@[i as int],
            ));
        }
        i = i + 1;
    }
    Ok(v)
}

/// The page payloads of a run of page responses, in order.
pub open spec fn pages_payload(pages: Seq<Seq<u8>>) -> Seq<u8>
    decreases pages.len(),
{
    if pages.len() == 0 {
        seq![]
    } else {
        pages_payload(pages.drop_last()) + pages.last().subrange(2, pages.last().len() as int)
    }
}

/// True when every page response echoes the read-page opcode.
pub open spec fn pages_all_echo_read(pages: Seq<Seq<u8>>) -> bool {
    forall|i: int| 0 <= i < pages.len() ==> #[trigger] pages[i][1] == 0x72
}

/// Concatenates the payloads of the collected page responses of one read,
/// refusing the whole read if any page echoes the wrong opcode.
#[verifier::loop_isolation(false)]
pub fn assemble_read_pages(pages: &Vec<Vec<u8>>) -> (r: Result<Vec<u8>, ISPError>)
    requires
        forall|i: int| 0 <= i < pages@.len() ==> (#[trigger] pages@[i]@).len() >= 2,
    ensures
        pages_all_echo_read(pages@.map_values(|p: Vec<u8>| p@)) ==> (r matches Ok(v) && v@
            == pages_payload(pages@.map_values(|p: Vec<u8>| p@))),
        !pages_all_echo_read(pages@.map_values(|p: Vec<u8>| p@)) ==> (r matches Err(e)
            && e is ReadWriteMismatch),
{
    let ghost views = pages@.map_values(|p: Vec<u8>| p@);
    let n = pages.len();
    let mut out: Vec<u8> = Vec::new();
    let mut i: usize = 0;
    proof {
        assert(views.take(0int) =~= Seq::<Seq<u8>>::empty());
    }
    while i < n
        invariant
            i <= n,
            n == pages@.len(),
            views == pages@.map_values(|p: Vec<u8>| p@),
            out@ == pages_payload(views.take(i as int)),
            forall|j: int| 0 <= j < i ==> #[trigger] views[j][1] == 0x72,
        decreases n - i,
    {
        let page = &pages[i];
        match parse_read_page(page) {
            Err(_) => {
                proof {
                    assert(views[i as int] == page@);
                    assert(!pages_all_echo_read(views));
                }
                return Err(ISPError::ReadWriteMismatch);
            },
            Ok(mut payload) => {
                let ghost prev = out@;
                out.append(&mut payload);
                proof {
                    assert(views[i as int] == page@);
                    assert(views.take(i + 1).drop_last() =~= views.take(i as int));
                    assert(views.take(i + 1).last() == views[i as int]);
                    assert(out@ == pages_payload(views.take(i + 1)));
                }
            },
        }
        i = i + 1;
    }
    proof {
        assert(views.take(n as int) =~= views);
    }
    Ok(out)
}

/// The write reports of a whole firmware image, one page each, in ascending
/// address order.
#[verifier::loop_isolation(false)]
pub fn build_write_reports(firmware: &Vec<u8>, page_size: usize) -> (r: Vec<Vec<u8>>)
    requires
        0 < page_size,
        firmware@.len() % page_size as nat == 0,
    ensures
        r@.len() == firmware@.len() / page_size as nat,
        forall|i: int|
            0 <= i < r@.len() ==> (#[trigger] r@[i]@) == seq![0x06u8, 0x77u8]
                + firmware@.subrange(i * page_size, (i + 1) * page_size),
{
    let num_pages = firmware.len() / page_size;
    proof {
        vstd::arithmetic::div_mod::lemma_fundamental_div_mod(
            firmware@.len() as int,
            page_size as int,
        );
        assert(firmware@.len() == page_size * num_pages);
        assert(page_size * num_pages == num_pages * page_size) by (nonlinear_arith);
    }
    let mut out: Vec<Vec<u8>> = Vec::new();
    let mut i: usize = 0;
    while i < num_pages
        invariant
            i <= num_pages,
            num_pages == firmware@.len() / page_size as nat,
            firmware@.len() == num_pages * page_size,
            out@.len() == i,
            forall|j: int|
                0 <= j < i ==> (#[trigger] out@[j]@) == seq![0x06u8, 0x77u8]
                    + firmware@.subrange(j * page_size, (j + 1) * page_size),
        decreases num_pages - i,
    {
        proof {
            assert(i * page_size + page_size == (i + 1) * page_size && i * page_size < (i + 1)
                * page_size && (i + 1) * page_size <= num_pages * page_size) by (nonlinear_arith)
                requires
                    i + 1 <= num_pages,
                    page_size > 0,
            ;
        }
        let start = i * page_size;
        let end = start + page_size;
        let chunk = &firmware.as_slice()[start..end];
        let report = write_page_report(chunk);
        out.push(report);
        i = i + 1;
    }
    out
}

/// The write-time relocation: the application's compiled jump target, the
/// two bytes after the front long-jump opcode, is stashed at the fixed
/// offset `firmware_size - 4` where the bootloader reads it back from.
pub fn apply_write_relocation(firmware: &mut Vec<u8>, firmware_size: usize)
    requires
        8 <= firmware_size <= old(firmware)@.len(),
    ensures
        final(firmware)@ == old(firmware)@.update(
            firmware_size - 4,
            old(firmware)@[1],
        ).update(firmware_size - 3, old(firmware)@[2]),
{
    let b1 = firmware[1];
    let b2 = firmware[2];
    firmware.set(firmware_size - 4, b1);
    firmware.set(firmware_size - 3, b2);
}

/// Clears the stashed jump target in the host-side copy after a write, since
/// the device's read-back does not reproduce it until the firmware has been
/// enabled.
pub fn clear_relocation_stash(firmware: &mut Vec<u8>, firmware_size: usize)
    requires
        8 <= firmware_size <= old(firmware)@.len(),
    ensures
        final(firmware)@ == old(firmware)@.update(firmware_size - 4, 0u8).update(
            firmware_size - 3,
            0u8,
        ),
{
    firmware.set(firmware_size - 4, 0);
    firmware.set(firmware_size - 3, 0);
}

/// Stashing the jump target for a write and then clearing the stash for the
/// verification leaves every byte but the two stash bytes as it was: the
/// image a read-back is verified against is the original with the stash
/// cleared.
pub proof fn lemma_write_verification_image(s: Seq<u8>, fs: int)
    requires
        8 <= fs <= s.len(),
    ensures
        s.update(fs - 4, s[1]).update(fs - 3, s[2]).update(fs - 4, 0u8).update(fs - 3, 0u8)
            == s.update(fs - 4, 0u8).update(fs - 3, 0u8),
{
    assert(s.update(fs - 4, s[1]).update(fs - 3, s[2]).update(fs - 4, 0u8).update(fs - 3, 0u8)
        =~= s.update(fs - 4, 0u8).update(fs - 3, 0u8));
}

/// The read-time reconstruction: when a raw read carries a long jump below
/// the stash offset, its target is copied back to the front reset vector and
/// the trailing long jump is cleared, restoring the image to the shape the
/// application was compiled with; a raw read without one is left alone.
pub fn reconstruct_read_image(image: &mut Vec<u8>, firmware_size: usize)
    requires
        8 <= firmware_size <= old(image)@.len(),
    ensures
        old(image)@[firmware_size - 5] == 0x02 ==> final(image)@ == old(image)@.update(
            1,
            old(image)@[firmware_size - 4],
        ).update(2, old(image)@[firmware_size - 3]).update(firmware_size - 5, 0u8).update(
            firmware_size - 4,
            0u8,
        ).update(firmware_size - 3, 0u8),
        old(image)@[firmware_size - 5] != 0x02 ==> final(image)@ == old(image)@,
{
    if image[firmware_size - 5] == 0x02 {
        let b1 = image[firmware_size - 4];
        let b2 = image[firmware_size - 3];
        image.set(1, b1);
        image.set(2, b2);
        image.set(firmware_size - 5, 0);
        image.set(firmware_size - 4, 0);
        image.set(firmware_size - 3, 0);
    }
}

/// One transport action of a flashing cycle, in order.
#[derive(Debug)]
pub enum WireStep {
    /// Send a feature report on the command channel.
    SendCommand(Vec<u8>),
    /// Send a feature report on the command channel whose transport error is
    /// logged and never propagated: the reboot command, whose USB transaction
    /// the device may cut short by restarting before the host completes it.
    SendCommandBestEffort(Vec<u8>),
    /// Send a feature report on the data channel.
    SendData(Vec<u8>),
    /// Fetch one data-channel report of the given length.
    ReadData(usize),
    /// Sleep the given milliseconds; the device signals no completion.
    Settle(u64),
}

/// The mathematical value of a [`WireStep`].
pub enum WireStepModel {
    SendCommand(Seq<u8>),
    SendCommandBestEffort(Seq<u8>),
    SendData(Seq<u8>),
    ReadData(usize),
    Settle(u64),
}

impl View for WireStep {
    type V = WireStepModel;

    open spec fn view(&self) -> WireStepModel {
        match self {
            WireStep::SendCommand(r) => WireStepModel::SendCommand(r@),
            WireStep::SendCommandBestEffort(r) => WireStepModel::SendCommandBestEffort(r@),
            WireStep::SendData(r) => WireStepModel::SendData(r@),
            WireStep::ReadData(len) => WireStepModel::ReadData(*len),
            WireStep::Settle(ms) => WireStepModel::Settle(*ms),
        }
    }
}

/// The mathematical values of a run of wire steps.
pub open spec fn steps_view(s: Seq<WireStep>) -> Seq<WireStepModel> {
    s.map_values(|w: WireStep| w@)
}

proof fn lemma_steps_view_push(v: Seq<WireStep>, w: WireStep)
    ensures
        steps_view(v.push(w)) == steps_view(v).push(w@),
{
    let lhs = steps_view(v.push(w));
    let rhs = steps_view(v).push(w@);
    assert forall|i: int| 0 <= i < lhs.len() implies lhs[i] == rhs[i] by {
        if i < v.len() {
            assert(v.push(w)[i] == v[i]);
        } else {
            assert(v.push(w)[i] == w);
        }
    }
    assert(lhs =~= rhs);
}

/// The flash range a section selects, mathematically.
pub open spec fn spec_read_range(spec: DeviceSpec, section: ReadSection) -> (int, int) {
    match section {
        ReadSection::Firmware => (0, spec.platform.firmware_size as int),
        ReadSection::Bootloader => (
            spec.platform.firmware_size as int,
            spec.platform.bootloader_size as int,
        ),
        ReadSection::Full => (
            0,
            spec.platform.firmware_size + spec.platform.bootloader_size,
        ),
    }
}

/// The wire steps of one read cycle: enable the firmware, set the start
/// address, fetch every page of the selected range in ascending order, and
/// optionally reboot.
pub open spec fn spec_read_cycle_plan(spec: DeviceSpec, section: ReadSection) -> Seq<
    WireStepModel,
> {
    let start = spec_read_range(spec, section).0;
    let length = spec_read_range(spec, section).1;
    let ps = spec.platform.page_size as int;
    seq![
        WireStepModel::SendCommand(spec_cmd_report(0x55, 0, 0)),
        WireStepModel::SendCommand(
            spec_cmd_report(0x52, (start % 256) as u8, (start / 256) as u8),
        ),
    ] + Seq::new((length / ps) as nat, |i: int| WireStepModel::ReadData((ps + 2) as usize)) + (
    if spec.reboot {
        seq![
            WireStepModel::SendCommandBestEffort(spec_cmd_report(0x5a, 0, 0)),
            WireStepModel::Settle(2000),
        ]
    } else {
        seq![]
    })
}

/// Builds the wire steps of one read cycle; the fetched pages are assembled
/// by [`assemble_read_pages`].
#[verifier::loop_isolation(false)]
pub fn read_cycle_plan(spec: &DeviceSpec, section: ReadSection) -> (r: Vec<WireStep>)
    requires
        spec.platform.wf(),
    ensures
        steps_view(r@) == spec_read_cycle_plan(*spec, section),
{
    let ghost goal = spec_read_cycle_plan(*spec, section);
    proof {
        if (spec.platform.firmware_size as nat) < (spec.platform.page_size as nat) {
            vstd::arithmetic::div_mod::lemma_small_mod(
                spec.platform.firmware_size as nat,
                spec.platform.page_size as nat,
            );
        }
        assert(spec.platform.page_size <= spec.platform.firmware_size);
    }
    let (start, length) = read_range(spec, section);
    let ps = spec.platform.page_size;
    let num_pages = length / ps;

    let mut out: Vec<WireStep> = Vec::new();
    out.push(WireStep::SendCommand(enable_firmware_report()));
    out.push(WireStep::SendCommand(init_read_report(start as u16)));
    let ghost pre = steps_view(out@);
    proof {
        assert(out@.map_values(|w: WireStep| w@) =~= seq![
            WireStepModel::SendCommand(spec_cmd_report(0x55, 0, 0)),
            WireStepModel::SendCommand(
                spec_cmd_report(0x52, (start as int % 256) as u8, (start as int / 256) as u8),
            ),
        ]);
    }
    let mut i: usize = 0;
    while i < num_pages
        invariant
            i <= num_pages,
            ps == spec.platform.page_size,
            num_pages == length / ps,
            steps_view(out@) == pre + Seq::new(
                i as nat,
                |t: int| WireStepModel::ReadData((ps + 2) as usize),
            ),
        decreases num_pages - i,
    {
        let ghost before = out@;
        out.push(WireStep::ReadData(ps + 2));
        proof {
            lemma_steps_view_push(before, WireStep::ReadData((ps + 2) as usize));
            assert(steps_view(out@) =~= pre + Seq::new(
                (i + 1) as nat,
                |t: int| WireStepModel::ReadData((ps + 2) as usize),
            ));
        }
        i = i + 1;
    }
    if spec.reboot {
        let ghost before = out@;
        out.push(WireStep::SendCommandBestEffort(reboot_report()));
        let ghost before2 = out@;
        out.push(WireStep::Settle(2000));
        proof {
            lemma_steps_view_push(before, before2.last());
            lemma_steps_view_push(before2, out@.last());
        }
    }
    proof {
        assert(steps_view(out@) =~= goal);
    }
    out
}

/// The wire steps of one write cycle up to the read-back, over an already
/// relocated image: erase and settle, set the write address, write every
/// page in ascending order, then set the read address and fetch every page
/// back for verification.
pub open spec fn spec_write_cycle_plan(fw: Seq<u8>, ps: int) -> Seq<WireStepModel> {
    seq![
        WireStepModel::SendCommand(spec_cmd_report(0x45, 0, 0)),
        WireStepModel::Settle(2000),
        WireStepModel::SendCommand(spec_cmd_report(0x57, 0, 0)),
    ] + Seq::new(
        (fw.len() as int / ps) as nat,
        |i: int| WireStepModel::SendData(seq![0x06u8, 0x77u8] + fw.subrange(i * ps, (i + 1) * ps)),
    ) + seq![WireStepModel::SendCommand(spec_cmd_report(0x52, 0, 0))] + Seq::new(
        (fw.len() as int / ps) as nat,
        |i: int| WireStepModel::ReadData((ps + 2) as usize),
    )
}

/// Builds the wire steps of one write cycle up to the read-back.  The image
/// must already carry the write-time relocation; after these steps the
/// caller clears the relocation stash, assembles the fetched pages, and
/// verifies them against the image before enabling the firmware.
#[verifier::loop_isolation(false)]
pub fn write_cycle_plan(firmware: &Vec<u8>, spec: &DeviceSpec) -> (r: Vec<WireStep>)
    requires
        spec.platform.wf(),
        firmware@.len() == spec.platform.firmware_size,
    ensures
        steps_view(r@) == spec_write_cycle_plan(firmware@, spec.platform.page_size as int),
{
    let ps = spec.platform.page_size;
    let ghost goal = spec_write_cycle_plan(firmware@, ps as int);
    proof {
        if (spec.platform.firmware_size as nat) < (spec.platform.page_size as nat) {
            vstd::arithmetic::div_mod::lemma_small_mod(
                spec.platform.firmware_size as nat,
                spec.platform.page_size as nat,
            );
        }
        assert(spec.platform.page_size <= spec.platform.firmware_size);
    }

    let mut out: Vec<WireStep> = Vec::new();
    out.push(WireStep::SendCommand(erase_report()));
    out.push(WireStep::Settle(2000));
    out.push(WireStep::SendCommand(init_write_report(0)));
    let ghost pre = steps_view(out@);
    proof {
        assert(pre =~= seq![
            WireStepModel::SendCommand(spec_cmd_report(0x45, 0, 0)),
            WireStepModel::Settle(2000u64),
            WireStepModel::SendCommand(spec_cmd_report(0x57, 0, 0)),
        ]);
    }

    let reports = build_write_reports(firmware, ps);
    let num_pages = reports.len();
    let mut i: usize = 0;
    while i < num_pages
        invariant
            i <= num_pages,
            ps == spec.platform.page_size,
            num_pages == reports@.len(),
            reports@.len() == firmware@.len() / ps as nat,
            forall|j: int|
                0 <= j < reports@.len() ==> (#[trigger] reports@[j]@) == seq![0x06u8, 0x77u8]
                    + firmware@.subrange(j * ps, (j + 1) * ps),
            steps_view(out@) == pre + Seq::new(
                i as nat,
                |t: int| WireStepModel::SendData(
                    seq![0x06u8, 0x77u8] + firmware@.subrange(t * ps, (t + 1) * ps),
                ),
            ),
        decreases num_pages - i,
    {
        let ghost before = out@;
        let report = reports[i].clone();
        proof {
            assert(report@ == reports@[i as int]@);
        }
        out.push(WireStep::SendData(report));
        proof {
            lemma_steps_view_push(before, out@.last());
            assert(steps_view(out@) =~= pre + Seq::new(
                (i + 1) as nat,
                |t: int| WireStepModel::SendData(
                    seq![0x06u8, 0x77u8] + firmware@.subrange(t * ps, (t + 1) * ps),
                ),
            ));
        }
        i = i + 1;
    }

    let ghost before_read = out@;
    out.push(WireStep::SendCommand(init_read_report(0)));
    let ghost pre2 = steps_view(out@);
    proof {
        lemma_steps_view_push(before_read, out@.last());
    }
    let mut t: usize = 0;
    while t < num_pages
        invariant
            t <= num_pages,
            ps == spec.platform.page_size,
            num_pages == firmware@.len() / ps as nat,
            steps_view(out@) == pre2 + Seq::new(
                t as nat,
                |u: int| WireStepModel::ReadData((ps + 2) as usize),
            ),
        decreases num_pages - t,
    {
        let ghost before = out@;
        out.push(WireStep::ReadData(ps + 2));
        proof {
            lemma_steps_view_push(before, out@.last());
            assert(steps_view(out@) =~= pre2 + Seq::new(
                (t + 1) as nat,
                |u: int| WireStepModel::ReadData((ps + 2) as usize),
            ));
        }
        t = t + 1;
    }
    proof {
        assert(steps_view(out@) =~= goal);
    }
    out
}

/// The wire steps that end a successful write cycle: enable the firmware,
/// and optionally reboot.
pub fn write_finish_plan(spec: &DeviceSpec) -> (r: Vec<WireStep>)
    ensures
        steps_view(r@) == seq![WireStepModel::SendCommand(spec_cmd_report(0x55, 0, 0))] + (
        if spec.reboot {
            seq![
                WireStepModel::SendCommandBestEffort(spec_cmd_report(0x5a, 0, 0)),
                WireStepModel::Settle(2000),
            ]
        } else {
            seq![]
        }),
{
    let mut out: Vec<WireStep> = Vec::new();
    out.push(WireStep::SendCommand(enable_firmware_report()));
    let ghost one = steps_view(out@);
    proof {
        assert(one =~= seq![WireStepModel::SendCommand(spec_cmd_report(0x55, 0, 0))]);
    }
    if spec.reboot {
        let ghost before = out@;
        out.push(WireStep::SendCommandBestEffort(reboot_report()));
        let ghost before2 = out@;
        out.push(WireStep::Settle(2000));
        proof {
            lemma_steps_view_push(before, before2.last());
            lemma_steps_view_push(before2, out@.last());
            assert(steps_view(out@) =~= one + seq![
                WireStepModel::SendCommandBestEffort(spec_cmd_report(0x5a, 0, 0)),
                WireStepModel::Settle(2000u64),
            ]);
        }
    } else {
        proof {
            assert(steps_view(out@) =~= one + Seq::<WireStepModel>::empty());
        }
    }
    out
}

/// The flash range a section selects: the firmware region, the bootloader
/// region, or both.
pub fn read_range(spec: &DeviceSpec, section: ReadSection) -> (r: (usize, usize))
    requires
        spec.platform.firmware_size + spec.platform.bootloader_size <= usize::MAX,
    ensures
        section is Firmware ==> r == (0usize, spec.platform.firmware_size),
        section is Bootloader ==> r.0 == spec.platform.firmware_size && r.1
            == spec.platform.bootloader_size,
        section is Full ==> r.0 == 0 && r.1 == spec.platform.firmware_size
            + spec.platform.bootloader_size,
{
    match section {
        ReadSection::Firmware => (0, spec.platform.firmware_size),
        ReadSection::Bootloader => (spec.platform.firmware_size, spec.platform.bootloader_size),
        ReadSection::Full => (0, spec.platform.firmware_size + spec.platform.bootloader_size),
    }
}

} // verus!
