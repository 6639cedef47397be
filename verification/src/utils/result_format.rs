use vstd::prelude::*;
use vstd::string::StringExecFns;

verus! {

/// What was found in one module, in the older report format.
#[allow(non_camel_case_types)]
pub struct Module_Details {
    pub time: usize,
    pub function_counts: usize,
    pub native_function_counts: usize,
    /// For each class of defect, by its name, the functions it was found
    /// in. The classes stand in the order of their names.
    pub detect_result: Vec<(String, Vec<String>)>,
    /// For each function, by its name, the classes of defect found in it.
    pub functions: Vec<(String, Vec<String>)>,
}

/// The outcome of a run, in the older report format.
#[allow(non_camel_case_types)]
pub struct Detection_Results {
    pub modules_count: usize,
    pub failed_modules_count: usize,
    pub total_time: usize,
    pub modules: Vec<(String, Module_Details)>,
}

/// The names of the classes of defect of the older report format, in
/// ascending order.
pub open spec fn class_names() -> Seq<Seq<char>> {
    seq![
        "Infinite_Loop"@,
        "Overflow"@,
        "Precision_Loss"@,
        "Unchecked_return"@,
        "Unnecessary_Bool_Judgment"@,
        "Unnecessary_Type_Conversion"@,
        "Unused_Constant"@,
        "Unused_Private_Functions"@,
    ]
}

impl Module_Details {
    /// A module with no function and, for each class of defect, no
    /// finding.
    pub fn new() -> (r: Self)
        ensures
            r.time == 0,
            r.function_counts == 0,
            r.native_function_counts == 0,
            r.functions@.len() == 0,
            r.detect_result@.len() == 8,
            forall|i: int|
                0 <= i < 8 ==> (#[trigger] r.detect_result@[i]).0@ == class_names()[i]
                    && r.detect_result@[i].1@.len() == 0,
    {
        let mut detect_result: Vec<(String, Vec<String>)> = Vec::new();
        detect_result.push((String::from_str("Infinite_Loop"), Vec::new()));
        detect_result.push((String::from_str("Overflow"), Vec::new()));
        detect_result.push((String::from_str("Precision_Loss"), Vec::new()));
        detect_result.push((String::from_str("Unchecked_return"), Vec::new()));
        detect_result.push((String::from_str("Unnecessary_Bool_Judgment"), Vec::new()));
        detect_result.push((String::from_str("Unnecessary_Type_Conversion"), Vec::new()));
        detect_result.push((String::from_str("Unused_Constant"), Vec::new()));
        detect_result.push((String::from_str("Unused_Private_Functions"), Vec::new()));
        Module_Details {
            time: 0,
            function_counts: 0,
            native_function_counts: 0,
            detect_result,
            functions: Vec::new(),
        }
    }
}

impl Detection_Results {
    pub fn new() -> (r: Self)
        ensures
            r.modules_count == 0,
            r.failed_modules_count == 0,
            r.total_time == 0,
            r.modules@.len() == 0,
    {
        Detection_Results {
            modules_count: 0,
            failed_modules_count: 0,
            total_time: 0,
            modules: Vec::new(),
        }
    }
}

} // verus!
