//! Where a report is found in the service's interface.

use vstd::prelude::*;

verus! {

/// The report of a project that is to be looked at: the project by its slug
/// or its identifier, the report by its identifier.
#[derive(Clone, Debug, PartialEq, Eq)]
pub struct ReportView {
    pub project: String,
    pub report: String,
}

/// The path of a report of a project.
pub open spec fn report_path(project: Seq<char>, report: Seq<char>) -> Seq<char> {
    "/v0/projects/"@ + project + "/reports/"@ + report
}

impl ReportView {
    /// The path under which the service gives the report.
    pub fn path(&self) -> (path: String)
        ensures
            path@ == report_path(self.project@, self.report@),
    {
        let mut path = "/v0/projects/".to_owned();
        path.append(self.project.as_str());
        path.append("/reports/");
        path.append(self.report.as_str());
        assert(path@ =~= report_path(self.project@, self.report@));
        path
    }
}

} // verus!
