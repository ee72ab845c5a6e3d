//! The authorization policy: action names and the policy document the host
//! authorization daemon is given. The daemon itself is an outside service;
//! the installer treats its answer as a boolean gate.

use vstd::prelude::*;

verus! {

/// Path the policy document is installed at.
pub const POLICY_FILE_PATH: &'static str = "/usr/share/polkit-1/actions/org.lxe.policy";

/// Action name for system-wide installation.
pub fn action_install_system() -> (r: &'static str)
    ensures
        r@ == "org.lxe.install.system"@,
{
    "org.lxe.install.system"
}

/// Action name for system-wide removal.
pub fn action_uninstall_system() -> (r: &'static str)
    ensures
        r@ == "org.lxe.uninstall.system"@,
{
    "org.lxe.uninstall.system"
}

/// The policy document registering the two privileged actions, each requiring
/// administrator authentication with session caching for active callers.
pub fn policy_file_content() -> (r: &'static str)
    ensures
        r@ == ("<?xml version=\"1.0\" encoding=\"UTF-8\"?>\n<!DOCTYPE policyconfig PUBLIC\n \"-//freedesktop//DTD PolicyKit Policy Configuration 1.0//EN\"\n \"http://www.freedesktop.org/standards/PolicyKit/1.0/policyconfig.dtd\">\n<policyconfig>\n  <vendor>LXE</vendor>\n\n  <action id=\"org.lxe.install.system\">\n    <description>Install application system-wide</description>\n    <message>Authentication is required to install this application for all users</message>\n    <defaults>\n      <allow_any>auth_admin</allow_any>\n      <allow_inactive>auth_admin</allow_inactive>\n      <allow_active>auth_admin_keep</allow_active>\n    </defaults>\n  </action>\n\n  <action id=\"org.lxe.uninstall.system\">\n    <description>Uninstall system-wide application</description>\n    <message>Authentication is required to uninstall this application</message>\n    <defaults>\n      <allow_any>auth_admin</allow_any>\n      <allow_inactive>auth_admin</allow_inactive>\n      <allow_active>auth_admin_keep</allow_active>\n    </defaults>\n  </action>\n</policyconfig>\n")@,
{
    "<?xml version=\"1.0\" encoding=\"UTF-8\"?>\n<!DOCTYPE policyconfig PUBLIC\n \"-//freedesktop//DTD PolicyKit Policy Configuration 1.0//EN\"\n \"http://www.freedesktop.org/standards/PolicyKit/1.0/policyconfig.dtd\">\n<policyconfig>\n  <vendor>LXE</vendor>\n\n  <action id=\"org.lxe.install.system\">\n    <description>Install application system-wide</description>\n    <message>Authentication is required to install this application for all users</message>\n    <defaults>\n      <allow_any>auth_admin</allow_any>\n      <allow_inactive>auth_admin</allow_inactive>\n      <allow_active>auth_admin_keep</allow_active>\n    </defaults>\n  </action>\n\n  <action id=\"org.lxe.uninstall.system\">\n    <description>Uninstall system-wide application</description>\n    <message>Authentication is required to uninstall this application</message>\n    <defaults>\n      <allow_any>auth_admin</allow_any>\n      <allow_inactive>auth_admin</allow_inactive>\n      <allow_active>auth_admin_keep</allow_active>\n    </defaults>\n  </action>\n</policyconfig>\n"
}

/// Whether a privileged operation may proceed: either the process is already
/// root, or the authorization gate answered yes.
pub fn may_proceed(is_root: bool, authorized: bool) -> (r: bool)
    ensures
        r == (is_root || authorized),
{
    is_root || authorized
}

} // verus!
