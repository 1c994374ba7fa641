use neoclr::assembler::{parse_function_ref, parse_type};
use neoclr::delegates::{compatible, Delegate, Signature};
use neoclr::types::Type;
use neoclr::value::{SlotReference, Value};

fn delegate(receiver: Option<Vec<usize>>) -> Delegate {
    Delegate {
        ty: parse_type("Callback").unwrap(),
        target: parse_function_ref("instance P::Run(Int32) @ Lib:4").unwrap(),
        receiver: receiver.map(|path| Box::new(Value::SlotReference(SlotReference { heap: "h".to_string(), allocation: Some(1), path }))),
    }
}

#[test]
fn delegates_compare_by_type_target_and_receiver_location() {
    assert!(delegate(None).same(&delegate(None)));
    assert!(delegate(Some(vec![0])).same(&delegate(Some(vec![0]))));
    assert!(!delegate(Some(vec![0])).same(&delegate(Some(vec![1]))));
    assert!(!delegate(Some(vec![0])).same(&delegate(None)));
    let mut other = delegate(None);
    other.target = parse_function_ref("instance P::Run(Int64) @ Lib:4").unwrap();
    assert!(!delegate(None).same(&other));
}

fn signature(parameters: &[&str], readonly: Vec<usize>, out: Vec<usize>) -> Signature {
    Signature {
        parameters: parameters.iter().map(|p| parse_type(p).unwrap()).collect(),
        returns: Type::Void,
        readonly_parameters: readonly,
        out_parameters: out,
        out_when_true: vec![],
    }
}

#[test]
fn bindings_require_matching_signatures() {
    let readonly_ref = Type::ReadOnlyByRef(Box::new(Type::Int32));
    let mut contract = signature(&["Int32&"], vec![0], vec![]);
    let mut target = signature(&["Int32"], vec![], vec![]);
    target.parameters = vec![readonly_ref.clone()];
    assert!(compatible(&contract, &target).is_ok());
    contract.readonly_parameters = vec![];
    assert_eq!(
        compatible(&contract, &target).unwrap_err().message,
        "delegate signature or reference contract mismatch"
    );
    assert!(compatible(&signature(&["Int32"], vec![], vec![0]), &signature(&["Int32"], vec![], vec![])).is_err());
    assert!(compatible(&signature(&["Int32"], vec![], vec![]), &signature(&["Int64"], vec![], vec![])).is_err());
    assert!(compatible(&signature(&[], vec![], vec![]), &signature(&["Int32"], vec![], vec![])).is_err());
    let mut returning = signature(&[], vec![], vec![]);
    returning.returns = Type::Int32;
    assert!(compatible(&returning, &signature(&[], vec![], vec![])).is_err());
}
