//! Capabilities an application may ask for in its manifest.
use vstd::prelude::*;

use crate::text::{owned, str_eq};

verus! {

/// One capability of the permission system.
#[derive(Debug, Clone, Copy, PartialEq, Eq, Hash, PartialOrd, Ord, Structural)]
#[non_exhaustive]
pub enum Capability {
    /// Connect to the Internet as a client.
    NetClient,
    /// Listen for incoming connections.
    NetServer,
    /// Read the system clipboard.
    ClipboardRead,
    /// Write the system clipboard.
    ClipboardWrite,
    /// Show local notifications.
    Notify,
    /// Share content with other applications.
    Share,
    /// Open external URIs.
    OpenUri,
    /// Short haptic feedback.
    Vibrate,
    /// Private per-application file vault.
    FsVault,
    /// Read the system store (metrics, permissions).
    SystemStoreRead,
    /// Play audio in the background.
    BackgroundAudio,
}

/// Every capability, in declaration order.
pub open spec fn all_capabilities() -> Seq<Capability> {
    seq![
        Capability::NetClient,
        Capability::NetServer,
        Capability::ClipboardRead,
        Capability::ClipboardWrite,
        Capability::Notify,
        Capability::Share,
        Capability::OpenUri,
        Capability::Vibrate,
        Capability::FsVault,
        Capability::SystemStoreRead,
        Capability::BackgroundAudio,
    ]
}

impl Capability {
    /// Canonical name, as written in manifests.
    pub open spec fn name(self) -> Seq<char> {
        match self {
            Capability::NetClient => "net-client"@,
            Capability::NetServer => "net-server"@,
            Capability::ClipboardRead => "clipboard-read"@,
            Capability::ClipboardWrite => "clipboard-write"@,
            Capability::Notify => "notify"@,
            Capability::Share => "share"@,
            Capability::OpenUri => "open-uri"@,
            Capability::Vibrate => "vibrate"@,
            Capability::FsVault => "fs-vault"@,
            Capability::SystemStoreRead => "system-store-read"@,
            Capability::BackgroundAudio => "background-audio"@,
        }
    }

    /// Position in declaration order: the bit of the capability in a set.
    pub open spec fn ordinal(self) -> nat {
        match self {
            Capability::NetClient => 0,
            Capability::NetServer => 1,
            Capability::ClipboardRead => 2,
            Capability::ClipboardWrite => 3,
            Capability::Notify => 4,
            Capability::Share => 5,
            Capability::OpenUri => 6,
            Capability::Vibrate => 7,
            Capability::FsVault => 8,
            Capability::SystemStoreRead => 9,
            Capability::BackgroundAudio => 10,
        }
    }

    /// Canonical name in manifests and on the wire (stable).
    pub fn as_str(self) -> (r: &'static str)
        ensures
            r@ == self.name(),
    {
        match self {
            Capability::NetClient => "net-client",
            Capability::NetServer => "net-server",
            Capability::ClipboardRead => "clipboard-read",
            Capability::ClipboardWrite => "clipboard-write",
            Capability::Notify => "notify",
            Capability::Share => "share",
            Capability::OpenUri => "open-uri",
            Capability::Vibrate => "vibrate",
            Capability::FsVault => "fs-vault",
            Capability::SystemStoreRead => "system-store-read",
            Capability::BackgroundAudio => "background-audio",
        }
    }

    /// How many capabilities there are.
    pub fn count() -> (n: usize)
        ensures
            n == all_capabilities().len(),
            n == 11,
    {
        11
    }

    /// Every capability, in declaration order.
    pub fn all() -> (r: [Capability; 11])
        ensures
            r@ == all_capabilities(),
    {
        let r: [Capability; 11] = [
            Capability::NetClient,
            Capability::NetServer,
            Capability::ClipboardRead,
            Capability::ClipboardWrite,
            Capability::Notify,
            Capability::Share,
            Capability::OpenUri,
            Capability::Vibrate,
            Capability::FsVault,
            Capability::SystemStoreRead,
            Capability::BackgroundAudio,
        ];
        assert(r@ =~= all_capabilities());
        r
    }

    /// The capability with this canonical name, if there is one.
    pub fn from_name(s: &str) -> (r: Option<Capability>)
        ensures
            r matches Some(c) ==> s@ == c.name(),
            r is None ==> forall|c: Capability| #[trigger] c.name() != s@,
    {
        let all: [Capability; 11] = Capability::all();
        let mut i: usize = 0;
        while i < 11
            invariant
                i <= 11,
                all@ == all_capabilities(),
                forall|k: int| 0 <= k < i ==> (#[trigger] all@[k]).name() != s@,
            decreases 11 - i,
        {
            let c: Capability = all[i];
            if str_eq(s, c.as_str()) {
                return Some(c);
            }
            i += 1;
        }
        assert forall|c: Capability| #[trigger] c.name() != s@ by {
            law_all_in_order(c);
            assert(all@[c.ordinal() as int] == c);
        }
        None
    }

    /// Stable position: the bit of this capability in a set.
    pub fn index(self) -> (r: u32)
        ensures
            r == self.ordinal(),
            r < 11,
    {
        match self {
            Capability::NetClient => 0,
            Capability::NetServer => 1,
            Capability::ClipboardRead => 2,
            Capability::ClipboardWrite => 3,
            Capability::Notify => 4,
            Capability::Share => 5,
            Capability::OpenUri => 6,
            Capability::Vibrate => 7,
            Capability::FsVault => 8,
            Capability::SystemStoreRead => 9,
            Capability::BackgroundAudio => 10,
        }
    }

    /// The canonical name as an owned string.
    pub fn to_text(self) -> (r: String)
        ensures
            r@ == self.name(),
    {
        owned(self.as_str())
    }
}

/// The list of all capabilities holds each one at its own index.
pub proof fn law_all_in_order(c: Capability)
    ensures
        c.ordinal() < all_capabilities().len(),
        all_capabilities()[c.ordinal() as int] == c,
        forall|i: int|
            0 <= i < all_capabilities().len() ==> (#[trigger] all_capabilities()[i]).ordinal() == i,
{
}

/// No two capabilities share a name, so reading a name back gives the
/// capability that was written.
pub proof fn law_names_distinct(a: Capability, b: Capability)
    requires
        a.name() == b.name(),
    ensures
        a == b,
{
    reveal_strlit("net-client");
    reveal_strlit("net-server");
    reveal_strlit("clipboard-read");
    reveal_strlit("clipboard-write");
    reveal_strlit("notify");
    reveal_strlit("share");
    reveal_strlit("open-uri");
    reveal_strlit("vibrate");
    reveal_strlit("fs-vault");
    reveal_strlit("system-store-read");
    reveal_strlit("background-audio");
    assert("net-client"@.len() == 10 && "net-client"@[4] == 'c');
    assert("net-server"@.len() == 10 && "net-server"@[4] == 's');
    assert("clipboard-read"@.len() == 14);
    assert("clipboard-write"@.len() == 15);
    assert("notify"@.len() == 6);
    assert("share"@.len() == 5);
    assert("open-uri"@.len() == 8 && "open-uri"@[0] == 'o');
    assert("vibrate"@.len() == 7);
    assert("fs-vault"@.len() == 8 && "fs-vault"@[0] == 'f');
    assert("system-store-read"@.len() == 17);
    assert("background-audio"@.len() == 16);
}

/// The names under which manifests ask for capabilities, and their bits.
pub proof fn law_names_in_manifests()
    ensures
        Capability::NetClient.name() == "net-client"@ && Capability::NetClient.ordinal() == 0,
        Capability::NetServer.name() == "net-server"@ && Capability::NetServer.ordinal() == 1,
        Capability::ClipboardRead.name() == "clipboard-read"@
            && Capability::ClipboardRead.ordinal() == 2,
        Capability::ClipboardWrite.name() == "clipboard-write"@
            && Capability::ClipboardWrite.ordinal() == 3,
        Capability::Notify.name() == "notify"@ && Capability::Notify.ordinal() == 4,
        Capability::Share.name() == "share"@ && Capability::Share.ordinal() == 5,
        Capability::OpenUri.name() == "open-uri"@ && Capability::OpenUri.ordinal() == 6,
        Capability::Vibrate.name() == "vibrate"@ && Capability::Vibrate.ordinal() == 7,
        Capability::FsVault.name() == "fs-vault"@ && Capability::FsVault.ordinal() == 8,
        Capability::SystemStoreRead.name() == "system-store-read"@
            && Capability::SystemStoreRead.ordinal() == 9,
        Capability::BackgroundAudio.name() == "background-audio"@
            && Capability::BackgroundAudio.ordinal() == 10,
{
}

} // verus!
