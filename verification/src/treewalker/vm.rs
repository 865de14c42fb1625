//! A script bound to a schema and a storage plan, with its literals turned
//! into values.

use vstd::prelude::*;
use crate::schema::CompiledSchema;
use crate::storage_plan::StoragePlan;
use super::bytecode::TwScript;
use super::vm_value::{spec_from_const, VmConst, VmType, VmValue, VmValueError};

verus! {

pub struct TwVm<'a> {
    pub schema: &'a CompiledSchema,
    pub storage_plan: &'a StoragePlan,
    pub script: &'a TwScript,
    pub consts: Vec<VmValue>,
    pub types: Vec<VmType>,
}

/// Position of the first literal at or after `from` that stands for no value
/// under the schema.
pub open spec fn first_bad_const(schema: CompiledSchema, consts: Seq<VmConst>, from: int) -> Option<int>
    decreases consts.len() - from,
{
    if 0 <= from < consts.len() {
        if spec_from_const(schema, consts[from]@) is Err {
            Some(from)
        } else {
            first_bad_const(schema, consts, from + 1)
        }
    } else {
        None
    }
}

impl<'a> TwVm<'a> {
    /// The script is bound to the schema and the plan; its literals have
    /// become the values they stand for and its types are as in the script.
    pub open spec fn binds(
        self,
        schema: &CompiledSchema,
        storage_plan: &StoragePlan,
        script: &TwScript,
    ) -> bool {
        &&& self.schema == schema
        &&& self.storage_plan == storage_plan
        &&& self.script == script
        &&& self.consts@.len() == script.consts@.len()
        &&& forall|i: int|
            0 <= i < script.consts@.len() ==> spec_from_const(*schema, script.consts@[i]@) == Ok::<
                super::vm_value::ValueView,
                super::vm_value::ValueErrorView,
            >((#[trigger] self.consts@[i])@)
        &&& self.types@.len() == script.types@.len()
        &&& forall|i: int| 0 <= i < script.types@.len() ==> (#[trigger] self.types@[i])@ == script.types@[i]@
    }

    /// Binds a script to a schema and a plan. Fails with the error of the
    /// first literal that stands for no value under the schema.
    pub fn new(schema: &'a CompiledSchema, storage_plan: &'a StoragePlan, script: &'a TwScript) -> (vm: Result<
        TwVm<'a>,
        VmValueError,
    >)
        ensures
            first_bad_const(*schema, script.consts@, 0) matches Some(i) ==> (vm matches Err(e) && Err::<
                super::vm_value::ValueView,
                super::vm_value::ValueErrorView,
            >(e@) == spec_from_const(*schema, script.consts@[i]@)),
            first_bad_const(*schema, script.consts@, 0) is None ==> (vm matches Ok(bound) && bound.binds(
                schema,
                storage_plan,
                script,
            )),
    {
        let mut consts: Vec<VmValue> = Vec::new();
        let mut i: usize = 0;
        while i < script.consts.len()
            invariant
                i <= script.consts@.len(),
                consts@.len() == i,
                first_bad_const(*schema, script.consts@, 0) == first_bad_const(*schema, script.consts@, i as int),
                forall|j: int|
                    0 <= j < i ==> spec_from_const(*schema, script.consts@[j]@) == Ok::<
                        super::vm_value::ValueView,
                        super::vm_value::ValueErrorView,
                    >((#[trigger] consts@[j])@),
            decreases script.consts.len() - i,
        {
            match VmValue::from_const(schema, &script.consts[i]) {
                Ok(value) => {
                    consts.push(value);
                },
                Err(e) => {
                    return Err(e);
                },
            }
            i += 1;
        }
        let mut types: Vec<VmType> = Vec::new();
        let mut t: usize = 0;
        while t < script.types.len()
            invariant
                t <= script.types@.len(),
                types@.len() == t,
                forall|j: int| 0 <= j < t ==> (#[trigger] types@[j])@ == script.types@[j]@,
            decreases script.types.len() - t,
        {
            types.push(script.types[t].duplicate());
            t += 1;
        }
        Ok(TwVm { schema, storage_plan, script, consts, types })
    }
}

} // verus!
